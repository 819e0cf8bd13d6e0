use vstd::prelude::*;

use crate::text::{
    chars_of, find_char, has_prefix_at, lemma_first_index, lemma_first_index_in, parse_usize,
    skip_spaces, skip_token, skip_word, skip_ws, slice, spec_parse_usize, str_eq, trim_bounds,
    trim_range,
};
use crate::types::{
    ArrayType, ConstantInfo, ConstantInfoView, Error, ErrorKind, ErrorView, FieldInfo, FieldInfoView,
    FieldType, FieldTypeView, Package, RosVersion,
};

verus! {

/// The host type that a ROS 1 intrinsic type maps to; `None` for any other type.
pub open spec fn ros1_rust_type(t: Seq<char>) -> Option<Seq<char>> {
    if t == "bool"@ {
        Some("bool"@)
    } else if t == "int8"@ {
        Some("i8"@)
    } else if t == "uint8"@ {
        Some("u8"@)
    } else if t == "byte"@ {
        Some("u8"@)
    } else if t == "char"@ {
        Some("u8"@)
    } else if t == "int16"@ {
        Some("i16"@)
    } else if t == "uint16"@ {
        Some("u16"@)
    } else if t == "int32"@ {
        Some("i32"@)
    } else if t == "uint32"@ {
        Some("u32"@)
    } else if t == "int64"@ {
        Some("i64"@)
    } else if t == "uint64"@ {
        Some("u64"@)
    } else if t == "float32"@ {
        Some("f32"@)
    } else if t == "float64"@ {
        Some("f64"@)
    } else if t == "string"@ {
        Some("::std::string::String"@)
    } else if t == "time"@ {
        Some("::roslibrust::codegen::integral_types::Time"@)
    } else if t == "duration"@ {
        Some("::roslibrust::codegen::integral_types::Duration"@)
    } else {
        None
    }
}

/// The host type that a ROS 2 type maps to, for the intrinsic types and the two
/// built-in time types; `None` for any other type.
pub open spec fn ros2_rust_type(t: Seq<char>) -> Option<Seq<char>> {
    if t == "time"@ || t == "duration"@ {
        None
    } else if t == "builtin_interfaces/Time"@ {
        Some("::roslibrust::codegen::integral_types::Time"@)
    } else if t == "builtin_interfaces/Duration"@ {
        Some("::roslibrust::codegen::integral_types::Duration"@)
    } else {
        ros1_rust_type(t)
    }
}

/// Whether `t` is a primitive of ROS 2: the ROS 1 primitives but time and
/// duration, and `wstring`.
pub open spec fn ros2_primitive(t: Seq<char>) -> bool {
    t == "wstring"@ || (ros1_rust_type(t) is Some && t != "time"@ && t != "duration"@)
}

pub open spec fn spec_rust_type(version: RosVersion, t: Seq<char>) -> Option<Seq<char>> {
    match version {
        RosVersion::ROS1 => ros1_rust_type(t),
        RosVersion::ROS2 => ros2_rust_type(t),
    }
}

pub open spec fn spec_is_intrinsic(version: RosVersion, t: Seq<char>) -> bool {
    match version {
        RosVersion::ROS1 => ros1_rust_type(t) is Some,
        RosVersion::ROS2 => ros2_primitive(t),
    }
}

fn ros1_lookup(t: &str) -> (r: Option<&'static str>)
    ensures
        match r {
            Some(x) => ros1_rust_type(t@) == Some(x@),
            None => ros1_rust_type(t@) is None,
        },
{
    if str_eq(t, "bool") {
        Some("bool")
    } else if str_eq(t, "int8") {
        Some("i8")
    } else if str_eq(t, "uint8") {
        Some("u8")
    } else if str_eq(t, "byte") {
        Some("u8")
    } else if str_eq(t, "char") {
        Some("u8")
    } else if str_eq(t, "int16") {
        Some("i16")
    } else if str_eq(t, "uint16") {
        Some("u16")
    } else if str_eq(t, "int32") {
        Some("i32")
    } else if str_eq(t, "uint32") {
        Some("u32")
    } else if str_eq(t, "int64") {
        Some("i64")
    } else if str_eq(t, "uint64") {
        Some("u64")
    } else if str_eq(t, "float32") {
        Some("f32")
    } else if str_eq(t, "float64") {
        Some("f64")
    } else if str_eq(t, "string") {
        Some("::std::string::String")
    } else if str_eq(t, "time") {
        Some("::roslibrust::codegen::integral_types::Time")
    } else if str_eq(t, "duration") {
        Some("::roslibrust::codegen::integral_types::Duration")
    } else {
        None
    }
}

/// Whether `ros_type` is intrinsic in `version`: it has no package and holds no
/// other message.
pub fn is_intrinsic_type(version: RosVersion, ros_type: &str) -> (r: bool)
    ensures
        r == spec_is_intrinsic(version, ros_type@),
{
    match version {
        RosVersion::ROS1 => ros1_lookup(ros_type).is_some(),
        RosVersion::ROS2 => {
            if str_eq(ros_type, "wstring") {
                true
            } else if str_eq(ros_type, "time") || str_eq(ros_type, "duration") {
                false
            } else {
                ros1_lookup(ros_type).is_some()
            }
        },
    }
}

/// The host type that `ros_type` is generated as, where it is built in.
pub fn convert_ros_type_to_rust_type(version: RosVersion, ros_type: &str) -> (r: Option<
    &'static str,
>)
    ensures
        match r {
            Some(x) => spec_rust_type(version, ros_type@) == Some(x@),
            None => spec_rust_type(version, ros_type@) is None,
        },
{
    match version {
        RosVersion::ROS1 => ros1_lookup(ros_type),
        RosVersion::ROS2 => {
            if str_eq(ros_type, "time") || str_eq(ros_type, "duration") {
                None
            } else if str_eq(ros_type, "builtin_interfaces/Time") {
                Some("::roslibrust::codegen::integral_types::Time")
            } else if str_eq(ros_type, "builtin_interfaces/Duration") {
                Some("::roslibrust::codegen::integral_types::Duration")
            } else {
                ros1_lookup(ros_type)
            }
        },
    }
}

/// A bounded string token `string<=N` gives `string` and `N`; any other token is
/// kept as it is, with no capacity.
pub open spec fn spec_parse_bounded_string(t: Seq<char>) -> Result<
    (Seq<char>, Option<usize>),
    ErrorKind,
> {
    if 8 <= t.len() && t.subrange(0, 8) == "string<="@ {
        match spec_parse_usize(t.subrange(8, t.len() as int)) {
            Some(n) => Ok(("string"@, Some(n))),
            None => Err(ErrorKind::Parse),
        }
    } else {
        Ok((t, None))
    }
}

/// Splits a bounded string token into `string` and its capacity.
pub fn parse_bounded_string(type_str: &str) -> (r: Result<(String, Option<usize>), Error>)
    ensures
        match r {
            Ok((t, cap)) => spec_parse_bounded_string(type_str@) == Ok::<
                (Seq<char>, Option<usize>),
                ErrorKind,
            >((t@, cap)),
            Err(e) => spec_parse_bounded_string(type_str@) == Err::<
                (Seq<char>, Option<usize>),
                ErrorKind,
            >(e.kind()),
        },
{
    let s = chars_of(type_str);
    proof {
        reveal_strlit("string<=");
    }
    if has_prefix_at(&s, 0, s.len(), "string<=") {
        match parse_usize(&s, 8, s.len()) {
            Some(n) => Ok((String::from_str("string"), Some(n))),
            None => Err(
                Error::Parse {
                    line: type_str.to_owned(),
                    context: String::from_str("capacity of a bounded string"),
                },
            ),
        }
    } else {
        Ok((type_str.to_owned(), None))
    }
}

/// Resolves a type token, with its array part already removed, in the package
/// `pkg_name` of version `version`.
pub open spec fn spec_parse_field_type(
    t: Seq<char>,
    array_info: ArrayType,
    pkg_name: Seq<char>,
    version: Option<RosVersion>,
) -> Result<FieldTypeView, ErrorKind> {
    match t.index_of_first('/') {
        None => match spec_parse_bounded_string(t) {
            Err(k) => Err(k),
            Ok((base, cap)) => Ok(
                FieldTypeView {
                    package_name: if spec_is_intrinsic(version.unwrap_or(RosVersion::ROS1), base) {
                        None
                    } else if t == "Header"@ {
                        Some("std_msgs"@)
                    } else {
                        Some(pkg_name)
                    },
                    source_package: pkg_name,
                    field_type: base,
                    array_info,
                    string_capacity: cap,
                },
            ),
        },
        Some(i) => if 0 < i && i + 1 < t.len() && !t.subrange(i + 1, t.len() as int).contains(
            '/',
        ) {
            Ok(
                FieldTypeView {
                    package_name: Some(t.subrange(0, i)),
                    source_package: pkg_name,
                    field_type: t.subrange(i + 1, t.len() as int),
                    array_info,
                    string_capacity: None,
                },
            )
        } else {
            Err(ErrorKind::Resolution)
        },
    }
}

/// Resolves a type token whose array part was already read as `array_info`.
pub fn parse_field_type(type_str: &str, array_info: ArrayType, pkg: &Package) -> (r: Result<
    FieldType,
    Error,
>)
    ensures
        match r {
            Ok(f) => spec_parse_field_type(type_str@, array_info, pkg.name@, pkg.version) == Ok::<
                FieldTypeView,
                ErrorKind,
            >(f@),
            Err(e) => spec_parse_field_type(type_str@, array_info, pkg.name@, pkg.version) == Err::<
                FieldTypeView,
                ErrorKind,
            >(e.kind()),
        },
{
    let s = chars_of(type_str);
    let slash = find_char(&s, 0, s.len(), '/');
    proof {
        lemma_first_index(s@, '/', slash);
    }
    match slash {
        None => {
            let (field_type, string_capacity) = parse_bounded_string(type_str)?;
            let version = match pkg.version {
                Some(v) => v,
                None => RosVersion::ROS1,
            };
            let package_name = if is_intrinsic_type(version, field_type.as_str()) {
                None
            } else if str_eq(type_str, "Header") {
                Some(String::from_str("std_msgs"))
            } else {
                Some(pkg.name.clone())
            };
            Ok(
                FieldType {
                    package_name,
                    source_package: pkg.name.clone(),
                    field_type,
                    array_info,
                    string_capacity,
                },
            )
        },
        Some(i) => {
            let again = if i + 1 < s.len() {
                find_char(&s, i + 1, s.len(), '/')
            } else {
                None
            };
            if 0 < i && i + 1 < s.len() && again.is_none() {
                proof {
                    let rest = s@.subrange(i + 1, s@.len() as int);
                    if rest.contains('/') {
                        let k = choose|k: int| 0 <= k < rest.len() && rest[k] == '/';
                        assert(s@[i + 1 + k] == '/');
                    }
                }
                Ok(
                    FieldType {
                        package_name: Some(slice(type_str, 0, i)),
                        source_package: pkg.name.clone(),
                        field_type: slice(type_str, i + 1, s.len()),
                        array_info,
                        string_capacity: None,
                    },
                )
            } else {
                proof {
                    if 0 < i && i + 1 < s.len() {
                        let j = again.unwrap();
                        let rest = s@.subrange(i + 1, s@.len() as int);
                        assert(rest[j - i - 1] == '/');
                    }
                }
                Err(Error::Resolution { token: type_str.to_owned(), package: pkg.name.clone() })
            }
        },
    }
}

/// Reads the array part of a type token: the base type before it and its kind.
///
/// A token with no brackets is a scalar. One `[` followed later by one `]` gives
/// an unbounded array when nothing stands between them, a bounded one for
/// `<=N`, and a fixed-length one for `N`. Any other use of brackets, or a size
/// that is no unsigned integer, is rejected.
pub open spec fn spec_parse_array(t: Seq<char>) -> Result<(Seq<char>, ArrayType), ErrorKind> {
    match (t.index_of_first('['), t.index_of_first(']')) {
        (None, None) => Ok((t, ArrayType::NotArray)),
        (Some(o), Some(c)) => if o < c && !t.subrange(o + 1, t.len() as int).contains('[')
            && !t.subrange(c + 1, t.len() as int).contains(']') {
            let inner = t.subrange(o + 1, c);
            let base = t.subrange(0, o);
            if inner.len() == 0 {
                Ok((base, ArrayType::Unbounded))
            } else if 2 <= inner.len() && inner[0] == '<' && inner[1] == '=' {
                match spec_parse_usize(inner.subrange(2, inner.len() as int)) {
                    Some(n) => Ok((base, ArrayType::Bounded(n))),
                    None => Err(ErrorKind::Parse),
                }
            } else {
                match spec_parse_usize(inner) {
                    Some(n) => Ok((base, ArrayType::FixedLength(n))),
                    None => Err(ErrorKind::Parse),
                }
            }
        } else {
            Err(ErrorKind::Parse)
        },
        _ => Err(ErrorKind::Parse),
    }
}

/// What a whole type token denotes in package `pkg_name` of version `version`.
pub open spec fn spec_parse_type(t: Seq<char>, pkg_name: Seq<char>, version: Option<RosVersion>) -> Result<
    FieldTypeView,
    ErrorKind,
> {
    match spec_parse_array(t) {
        Err(k) => Err(k),
        Ok((base, array_info)) => spec_parse_field_type(base, array_info, pkg_name, version),
    }
}

/// Whether some position of `s[from..to]` holds `c`.
proof fn lemma_contains_range(s: Seq<char>, from: int, to: int, c: char, r: Option<usize>)
    requires
        0 <= from <= to <= s.len(),
        match r {
            Some(i) => from <= i < to && s[i as int] == c,
            None => forall|j: int| from <= j < to ==> s[j] != c,
        },
    ensures
        s.subrange(from, to).contains(c) == (r is Some),
{
    let sub = s.subrange(from, to);
    match r {
        Some(i) => {
            assert(sub[i - from] == c);
        },
        None => {
            if sub.contains(c) {
                let k = choose|k: int| 0 <= k < sub.len() && sub[k] == c;
                assert(s[from + k] == c);
            }
        },
    }
}

/// Splits a type token into its base and its array kind.
fn parse_array(type_str: &str) -> (r: Result<(&str, ArrayType), Error>)
    ensures
        match r {
            Ok((b, a)) => spec_parse_array(type_str@) == Ok::<(Seq<char>, ArrayType), ErrorKind>(
                (b@, a),
            ),
            Err(e) => spec_parse_array(type_str@) == Err::<(Seq<char>, ArrayType), ErrorKind>(
                e.kind(),
            ),
        },
{
    let s = chars_of(type_str);
    let n = s.len();
    let open = find_char(&s, 0, n, '[');
    let close = find_char(&s, 0, n, ']');
    proof {
        lemma_first_index(s@, '[', open);
        lemma_first_index(s@, ']', close);
    }
    let malformed = Error::Parse {
        line: type_str.to_owned(),
        context: String::from_str("array part of a type"),
    };
    match (open, close) {
        (None, None) => Ok((type_str, ArrayType::NotArray)),
        (Some(o), Some(c)) => {
            if c <= o {
                return Err(malformed);
            }
            let open2 = find_char(&s, o + 1, n, '[');
            let close2 = find_char(&s, c + 1, n, ']');
            proof {
                lemma_contains_range(s@, o + 1, n as int, '[', open2);
                lemma_contains_range(s@, c + 1, n as int, ']', close2);
            }
            if open2.is_some() || close2.is_some() {
                return Err(malformed);
            }
            let ghost inner = s@.subrange(o + 1, c as int);
            let array_info = if c - o == 1 {
                ArrayType::Unbounded
            } else if c - o >= 3 && s[o + 1] == '<' && s[o + 2] == '=' {
                proof {
                    assert(inner.subrange(2, inner.len() as int) =~= s@.subrange(
                        o + 3,
                        c as int,
                    ));
                }
                match parse_usize(&s, o + 3, c) {
                    Some(k) => ArrayType::Bounded(k),
                    None => {
                        return Err(malformed);
                    },
                }
            } else {
                match parse_usize(&s, o + 1, c) {
                    Some(k) => ArrayType::FixedLength(k),
                    None => {
                        return Err(malformed);
                    },
                }
            };
            let base = type_str.substring_char(0, o);
            assert(base@ == s@.subrange(0, o as int));
            Ok((base, array_info))
        },
        _ => Err(malformed),
    }
}

/// Determines the type of a field from its type token, such as `int32[<=3]` or
/// `pkg/Type[]`, in the package `pkg`.
pub fn parse_type(type_str: &str, pkg: &Package) -> (r: Result<FieldType, Error>)
    ensures
        match r {
            Ok(f) => spec_parse_type(type_str@, pkg.name@, pkg.version) == Ok::<
                FieldTypeView,
                ErrorKind,
            >(f@),
            Err(e) => spec_parse_type(type_str@, pkg.name@, pkg.version) == Err::<
                FieldTypeView,
                ErrorKind,
            >(e.kind()),
        },
{
    let (base, array_info) = parse_array(type_str)?;
    parse_field_type(base, array_info, pkg)
}

/// A field line `TYPE NAME [DEFAULT]`: the first token is the type and the second
/// the name; for ROS 2 what follows the name, trimmed, is the default value.
pub open spec fn spec_parse_field(s: Seq<char>, pkg_name: Seq<char>, version: Option<RosVersion>) -> Result<
    FieldInfoView,
    ErrorKind,
> {
    let a0 = skip_ws(s, 0);
    let b0 = skip_word(s, a0);
    if a0 == b0 {
        Err(ErrorKind::Parse)
    } else {
        match spec_parse_type(s.subrange(a0, b0), pkg_name, version) {
            Err(k) => Err(k),
            Ok(ft) => {
                let a1 = skip_ws(s, b0);
                let b1 = skip_word(s, a1);
                if a1 == b1 {
                    Err(ErrorKind::Parse)
                } else {
                    let d = trim_range(s, b1, s.len() as int);
                    Ok(
                        FieldInfoView {
                            field_type: ft,
                            field_name: s.subrange(a1, b1),
                            default: if version == Some(RosVersion::ROS2) && d.len() > 0 {
                                Some(d)
                            } else {
                                None
                            },
                        },
                    )
                }
            },
        }
    }
}

/// Whether a field line lacks its type token, or has a valid type token and
/// lacks its name token.
pub open spec fn missing_token(s: Seq<char>, pkg_name: Seq<char>, version: Option<RosVersion>) -> bool {
    let a0 = skip_ws(s, 0);
    let b0 = skip_word(s, a0);
    a0 == b0 || (spec_parse_type(s.subrange(a0, b0), pkg_name, version) is Ok && skip_ws(s, b0)
        == skip_word(s, skip_ws(s, b0)))
}

/// Parses one field line of a message in `pkg`. A line that lacks a token is
/// rejected with the line and `package/message` in the error.
pub fn parse_field(line: &str, pkg: &Package, msg_name: &str) -> (r: Result<FieldInfo, Error>)
    ensures
        missing_token(line@, pkg.name@, pkg.version) ==> (r matches Err(e) && e@
            == (ErrorView::Parse { line: line@, context: pkg.name@ + "/"@ + msg_name@ })),
        match r {
            Ok(f) => spec_parse_field(line@, pkg.name@, pkg.version) == Ok::<
                FieldInfoView,
                ErrorKind,
            >(f@),
            Err(e) => spec_parse_field(line@, pkg.name@, pkg.version) == Err::<
                FieldInfoView,
                ErrorKind,
            >(e.kind()),
        },
{
    let s = chars_of(line);
    let n = s.len();
    let a0 = skip_spaces(&s, 0);
    let b0 = skip_token(&s, a0);
    if a0 == b0 {
        return Err(
            Error::Parse {
                line: line.to_owned(),
                context: pkg.name.clone().concat("/").concat(msg_name),
            },
        );
    }
    let type_token = slice(line, a0, b0);
    let field_type = parse_type(type_token.as_str(), pkg)?;
    let a1 = skip_spaces(&s, b0);
    let b1 = skip_token(&s, a1);
    if a1 == b1 {
        return Err(
            Error::Parse {
                line: line.to_owned(),
                context: pkg.name.clone().concat("/").concat(msg_name),
            },
        );
    }
    let field_name = slice(line, a1, b1);
    let default = if pkg.version == Some(RosVersion::ROS2) {
        let (lo, hi) = trim_bounds(&s, b1, n);
        if lo < hi {
            Some(slice(line, lo, hi))
        } else {
            None
        }
    } else {
        None
    };
    Ok(FieldInfo { field_type, field_name, default })
}

/// A constant line `TYPE NAME = VALUE`: the type token, then white space, then the
/// name up to the first `=`, then the value; name and value are trimmed.
pub open spec fn spec_parse_constant(s: Seq<char>, pkg_name: Seq<char>, version: Option<RosVersion>) -> Result<
    ConstantInfoView,
    ErrorKind,
> {
    let a0 = skip_ws(s, 0);
    let b0 = skip_word(s, a0);
    if a0 == b0 || b0 >= s.len() {
        Err(ErrorKind::Parse)
    } else {
        match s.subrange(b0, s.len() as int).index_of_first('=') {
            None => Err(ErrorKind::Parse),
            Some(k) => match spec_parse_type(s.subrange(a0, b0), pkg_name, version) {
                Err(e) => Err(e),
                Ok(ft) => Ok(
                    ConstantInfoView {
                        constant_type: ft.field_type,
                        constant_name: trim_range(s, b0, b0 + k),
                        constant_value: trim_range(s, b0 + k + 1, s.len() as int),
                    },
                ),
            },
        }
    }
}

/// Parses one constant line of a message in `pkg`.
pub fn parse_constant_field(line: &str, pkg: &Package) -> (r: Result<ConstantInfo, Error>)
    ensures
        match r {
            Ok(c) => spec_parse_constant(line@, pkg.name@, pkg.version) == Ok::<
                ConstantInfoView,
                ErrorKind,
            >(c@),
            Err(e) => spec_parse_constant(line@, pkg.name@, pkg.version) == Err::<
                ConstantInfoView,
                ErrorKind,
            >(e.kind()),
        },
{
    let s = chars_of(line);
    let n = s.len();
    let a0 = skip_spaces(&s, 0);
    let b0 = skip_token(&s, a0);
    if a0 == b0 || b0 >= n {
        return Err(
            Error::Parse {
                line: line.to_owned(),
                context: String::from_str("constant without white space after its type"),
            },
        );
    }
    let eq = find_char(&s, b0, n, '=');
    proof {
        lemma_first_index_in(s@, b0 as int, n as int, '=', eq);
    }
    let e = match eq {
        Some(e) => e,
        None => {
            return Err(
                Error::Parse {
                    line: line.to_owned(),
                    context: String::from_str("constant without '='"),
                },
            );
        },
    };
    let type_token = slice(line, a0, b0);
    let constant_type = parse_type(type_token.as_str(), pkg)?.field_type;
    let (nlo, nhi) = trim_bounds(&s, b0, e);
    let (vlo, vhi) = trim_bounds(&s, e + 1, n);
    Ok(
        ConstantInfo {
            constant_type,
            constant_name: slice(line, nlo, nhi),
            constant_value: slice(line, vlo, vhi),
        },
    )
}

/// `s` up to its first `#`.
/// Whether position `i` of `s` holds a `#` that opens a comment: one with no
/// backslash before it.
pub open spec fn comment_at(s: Seq<char>, i: int) -> bool {
    s[i] == '#' && (i == 0 || s[i - 1] != '\\')
}

/// The position of the first `#` of `s` that opens a comment.
pub open spec fn first_comment(s: Seq<char>) -> Option<int> {
    if exists|i: int| 0 <= i < s.len() && comment_at(s, i) {
        Some(
            choose|i: int|
                0 <= i < s.len() && comment_at(s, i) && forall|j: int|
                    0 <= j < i ==> !comment_at(s, j),
        )
    } else {
        None
    }
}

/// `s` up to its first `#` that has no backslash before it.
pub open spec fn spec_strip_comments(s: Seq<char>) -> Seq<char> {
    match first_comment(s) {
        Some(i) => s.subrange(0, i),
        None => s,
    }
}

/// Cuts a line at the first `#` without a backslash before it and keeps what
/// precedes it; an escaped `\#` stays in the line.
pub fn strip_comments(line: &str) -> (r: &str)
    ensures
        r@ == spec_strip_comments(line@),
{
    let s = chars_of(line);
    let mut i: usize = 0;
    while i < s.len()
        invariant
            s@ == line@,
            i <= s@.len(),
            forall|j: int| 0 <= j < i ==> !comment_at(s@, j),
        decreases s.len() - i,
    {
        if s[i] == '#' && (i == 0 || s[i - 1] != '\\') {
            proof {
                assert(comment_at(s@, i as int));
                let f = first_comment(s@);
                let k = f->0;
                assert(!(k < i));
                assert(!(i < k));
            }
            return line.substring_char(0, i);
        }
        i = i + 1;
    }
    line
}

/// Whether `s` holds neither bracket.
pub open spec fn no_brackets(s: Seq<char>) -> bool {
    !s.contains('[') && !s.contains(']')
}

/// Whether `ds` spells an unsigned size: one or more decimal digits whose value
/// fits in `usize`.
pub open spec fn valid_size(ds: Seq<char>) -> bool {
    ds.len() > 0 && crate::text::all_digits(ds) && crate::text::decimal_value(ds) <= usize::MAX
}

proof fn lemma_size_parses(ds: Seq<char>)
    requires
        valid_size(ds),
    ensures
        spec_parse_usize(ds) == Some(crate::text::decimal_value(ds) as usize),
{
    assert(crate::text::is_digit(ds[0]));
}

proof fn lemma_first_at(t: Seq<char>, c: char, i: int)
    requires
        0 <= i < t.len(),
        t[i] == c,
        forall|j: int| 0 <= j < i ==> t[j] != c,
    ensures
        t.index_of_first(c) == Some(i),
{
    t.index_of_first_ensures(c);
    assert(t.contains(c));
    let k = t.index_of_first(c)->0;
    assert(!(k < i));
    assert(!(i < k));
}

/// A type token made of a base without brackets and an array part `[N]`, `[<=N]`
/// or `[]` reads as a fixed-length, bounded or unbounded array of that base.
pub proof fn law_array_tokens(b: Seq<char>, ds: Seq<char>)
    requires
        no_brackets(b),
        valid_size(ds),
    ensures
        spec_parse_array(b + seq!['['] + ds + seq![']']) == Ok::<(Seq<char>, ArrayType), ErrorKind>(
            (b, ArrayType::FixedLength(crate::text::decimal_value(ds) as usize)),
        ),
        spec_parse_array(b + seq!['[', '<', '='] + ds + seq![']']) == Ok::<
            (Seq<char>, ArrayType),
            ErrorKind,
        >((b, ArrayType::Bounded(crate::text::decimal_value(ds) as usize))),
        spec_parse_array(b + seq!['[', ']']) == Ok::<(Seq<char>, ArrayType), ErrorKind>(
            (b, ArrayType::Unbounded),
        ),
{
    lemma_size_parses(ds);
    let n = b.len() as int;
    assert forall|j: int| 0 <= j < n implies b[j] != '[' && b[j] != ']' by {
        if b[j] == '[' {
            assert(b.contains('['));
        }
        if b[j] == ']' {
            assert(b.contains(']'));
        }
    }
    let t1 = b + seq!['['] + ds + seq![']'];
    let c1 = n + 1 + ds.len() as int;
    assert(t1[n] == '[');
    assert(t1[c1] == ']');
    lemma_first_at(t1, '[', n);
    assert forall|j: int| 0 <= j < c1 implies t1[j] != ']' by {
        if j > n {
            assert(t1[j] == ds[j - n - 1]);
            assert(crate::text::is_digit(ds[j - n - 1]));
        }
    }
    lemma_first_at(t1, ']', c1);
    let r1 = t1.subrange(n + 1, t1.len() as int);
    assert(!r1.contains('[')) by {
        if r1.contains('[') {
            let k = choose|k: int| 0 <= k < r1.len() && r1[k] == '[';
            if k < ds.len() {
                assert(crate::text::is_digit(ds[k]));
            }
        }
    }
    assert(t1.subrange(c1 + 1, t1.len() as int) =~= Seq::<char>::empty());
    assert(t1.subrange(n + 1, c1) =~= ds);
    assert(t1.subrange(0, n) =~= b);

    let t2 = b + seq!['[', '<', '='] + ds + seq![']'];
    let c2 = n + 3 + ds.len() as int;
    assert(t2[n] == '[');
    assert(t2[c2] == ']');
    lemma_first_at(t2, '[', n);
    assert forall|j: int| 0 <= j < c2 implies t2[j] != ']' by {
        if j > n + 2 {
            assert(t2[j] == ds[j - n - 3]);
            assert(crate::text::is_digit(ds[j - n - 3]));
        }
    }
    lemma_first_at(t2, ']', c2);
    let r2 = t2.subrange(n + 1, t2.len() as int);
    assert(!r2.contains('[')) by {
        if r2.contains('[') {
            let k = choose|k: int| 0 <= k < r2.len() && r2[k] == '[';
            if 2 <= k < ds.len() + 2 {
                assert(crate::text::is_digit(ds[k - 2]));
            }
        }
    }
    assert(t2.subrange(c2 + 1, t2.len() as int) =~= Seq::<char>::empty());
    assert(t2.subrange(n + 1, c2).subrange(2, ds.len() as int + 2) =~= ds);
    assert(t2.subrange(0, n) =~= b);

    let t3 = b + seq!['[', ']'];
    lemma_first_at(t3, '[', n);
    lemma_first_at(t3, ']', n + 1);
    assert(t3.subrange(n + 1, t3.len() as int) =~= seq![']']);
    assert(t3.subrange(n + 2, t3.len() as int) =~= Seq::<char>::empty());
    assert(t3.subrange(0, n) =~= b);
}

/// A type token with one kind of bracket and not the other is rejected.
pub proof fn law_unmatched_brackets_rejected(t: Seq<char>)
    requires
        t.contains('[') != t.contains(']'),
    ensures
        spec_parse_array(t) == Err::<(Seq<char>, ArrayType), ErrorKind>(ErrorKind::Parse),
{
    t.index_of_first_ensures('[');
    t.index_of_first_ensures(']');
}

/// `string<=N` reads as `string` with capacity `N`; any token that does not begin
/// with `string<=`, such as `string`, has no capacity.
pub proof fn law_bounded_strings(ds: Seq<char>, t: Seq<char>)
    requires
        valid_size(ds),
        !(8 <= t.len() && t.subrange(0, 8) == "string<="@),
    ensures
        spec_parse_bounded_string("string<="@ + ds) == Ok::<(Seq<char>, Option<usize>), ErrorKind>(
            ("string"@, Some(crate::text::decimal_value(ds) as usize)),
        ),
        spec_parse_bounded_string(t) == Ok::<(Seq<char>, Option<usize>), ErrorKind>((t, None)),
{
    lemma_size_parses(ds);
    reveal_strlit("string<=");
    let s = "string<="@ + ds;
    assert(s.subrange(0, 8) =~= "string<="@);
    assert(s.subrange(8, s.len() as int) =~= ds);
}

} // verus!
