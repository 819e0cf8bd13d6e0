//! The canonical type descriptions that ROS 2 hashes, and the hashes themselves.
use vstd::prelude::*;

use crate::catalog::{
    insert_description, lemma_sorted_unique, map_of, merge_descriptions, sorted_by_name,
};
use crate::digest::{sha256, sha256_of};
use crate::json::json_msg;
pub use crate::json::to_ros2_json;
use crate::text::{has_suffix, lemma_last_index, str_eq};
use crate::types::{
    constants_view, fields_view, ArrayType, ConstantInfo, ConstantInfoView, Error, ErrorView,
    FieldInfo, FieldInfoView, FieldTypeView, MessageFile, ParsedMessageFile, ParsedMessageView,
    ParsedServiceFile, Ros2Hash, RosVersion,
};
use vstd::utf8::encode_utf8;

verus! {

/// The description of a field's type: its numeric tag, its capacities and the
/// name of the nested type it holds, if any.
#[derive(Clone, Debug, PartialEq, Eq)]
pub struct FieldType {
    pub type_id: u8,
    pub capacity: u32,
    pub string_capacity: u32,
    pub nested_name: String,
}

/// One field of a type description. The default value takes no part in the hash.
#[derive(Clone, Debug, PartialEq, Eq)]
pub struct Field {
    pub name: String,
    pub field_type: FieldType,
    pub default_value: String,
}

/// A type's name and its ordered fields.
#[derive(Clone, Debug, PartialEq, Eq)]
pub struct TypeDescription {
    pub name: String,
    pub fields: Vec<Field>,
}

/// A type description with every type it refers to, ordered by name.
#[derive(Clone, Debug, PartialEq, Eq)]
pub struct TypeDescriptionMsg {
    pub type_description: TypeDescription,
    pub referenced_type_descriptions: Vec<TypeDescription>,
}

pub struct FieldTypeDescView {
    pub type_id: u8,
    pub capacity: u32,
    pub string_capacity: u32,
    pub nested_name: Seq<char>,
}

pub struct FieldDescView {
    pub name: Seq<char>,
    pub field_type: FieldTypeDescView,
}

pub struct TypeDescriptionView {
    pub name: Seq<char>,
    pub fields: Seq<FieldDescView>,
}

pub struct TypeDescriptionMsgView {
    pub type_description: TypeDescriptionView,
    pub referenced_type_descriptions: Seq<TypeDescriptionView>,
}

impl View for FieldType {
    type V = FieldTypeDescView;

    open spec fn view(&self) -> FieldTypeDescView {
        FieldTypeDescView {
            type_id: self.type_id,
            capacity: self.capacity,
            string_capacity: self.string_capacity,
            nested_name: self.nested_name@,
        }
    }
}

impl View for Field {
    type V = FieldDescView;

    open spec fn view(&self) -> FieldDescView {
        FieldDescView { name: self.name@, field_type: self.field_type@ }
    }
}

pub open spec fn field_descs_view(v: Seq<Field>) -> Seq<FieldDescView> {
    v.map_values(|f: Field| f@)
}

impl View for TypeDescription {
    type V = TypeDescriptionView;

    open spec fn view(&self) -> TypeDescriptionView {
        TypeDescriptionView { name: self.name@, fields: field_descs_view(self.fields@) }
    }
}

pub open spec fn descs_view(v: Seq<TypeDescription>) -> Seq<TypeDescriptionView> {
    v.map_values(|d: TypeDescription| d@)
}

impl View for TypeDescriptionMsg {
    type V = TypeDescriptionMsgView;

    open spec fn view(&self) -> TypeDescriptionMsgView {
        TypeDescriptionMsgView {
            type_description: self.type_description@,
            referenced_type_descriptions: descs_view(self.referenced_type_descriptions@),
        }
    }
}

/// The tag of a scalar of the named type, before bounds and arrays are applied.
/// `char` is read as `uint8`, and a name outside the table is a nested type.
pub open spec fn core_type_id(t: Seq<char>) -> u8 {
    if t == "nested_type"@ {
        1
    } else if t == "int8"@ {
        2
    } else if t == "uint8"@ || t == "char"@ {
        3
    } else if t == "int16"@ {
        4
    } else if t == "uint16"@ {
        5
    } else if t == "int32"@ {
        6
    } else if t == "uint32"@ {
        7
    } else if t == "int64"@ {
        8
    } else if t == "uint64"@ {
        9
    } else if t == "float32"@ {
        10
    } else if t == "float64"@ {
        11
    } else if t == "long"@ {
        12
    } else if t == "wchar"@ {
        14
    } else if t == "bool"@ {
        15
    } else if t == "octet"@ || t == "byte"@ {
        16
    } else if t == "string"@ {
        17
    } else if t == "wstring"@ {
        18
    } else if t == "bounded_string"@ {
        21
    } else if t == "bounded_wstring"@ {
        22
    } else {
        1
    }
}

/// What the array kind adds to a scalar tag.
pub open spec fn array_offset(a: ArrayType) -> u8 {
    match a {
        ArrayType::NotArray => 0,
        ArrayType::FixedLength(_) => 48,
        ArrayType::Bounded(_) => 96,
        ArrayType::Unbounded => 144,
    }
}

/// The numeric tag of a field type, where the table has one: a bounded variant
/// exists only of the two string types.
pub open spec fn spec_field_type_id(ft: FieldTypeView) -> Option<u8> {
    let core = core_type_id(ft.field_type);
    if ft.string_capacity is Some {
        if core == 17 || core == 18 {
            Some((core + 4 + array_offset(ft.array_info)) as u8)
        } else {
            None
        }
    } else {
        Some((core + array_offset(ft.array_info)) as u8)
    }
}

/// The symbolic name of the scalar tag `id`, after `FIELD_TYPE_`.
pub open spec fn core_name(id: u8) -> Seq<char> {
    if id == 2 {
        "INT8"@
    } else if id == 3 {
        "UINT8"@
    } else if id == 4 {
        "INT16"@
    } else if id == 5 {
        "UINT16"@
    } else if id == 6 {
        "INT32"@
    } else if id == 7 {
        "UINT32"@
    } else if id == 8 {
        "INT64"@
    } else if id == 9 {
        "UINT64"@
    } else if id == 10 {
        "FLOAT"@
    } else if id == 11 {
        "DOUBLE"@
    } else if id == 12 {
        "LONG_DOUBLE"@
    } else if id == 14 {
        "WCHAR"@
    } else if id == 15 {
        "BOOLEAN"@
    } else if id == 16 {
        "BYTE"@
    } else if id == 17 {
        "STRING"@
    } else if id == 18 {
        "WSTRING"@
    } else if id == 21 {
        "BOUNDED_STRING"@
    } else if id == 22 {
        "BOUNDED_WSTRING"@
    } else {
        "NESTED_TYPE"@
    }
}

pub open spec fn array_suffix(a: ArrayType) -> Seq<char> {
    match a {
        ArrayType::NotArray => ""@,
        ArrayType::FixedLength(_) => "_ARRAY"@,
        ArrayType::Bounded(_) => "_BOUNDED_SEQUENCE"@,
        ArrayType::Unbounded => "_UNBOUNDED_SEQUENCE"@,
    }
}

/// The symbolic name of a field type, such as `FIELD_TYPE_INT32_ARRAY` for
/// `int32[3]` and `FIELD_TYPE_BOUNDED_STRING` for `string<=10`.
pub open spec fn spec_field_type_string(ft: FieldTypeView) -> Seq<char> {
    "FIELD_TYPE_"@ + (if ft.string_capacity is Some {
        "BOUNDED_"@
    } else {
        ""@
    }) + core_name(core_type_id(ft.field_type)) + array_suffix(ft.array_info)
}

fn core_type_id_exec(t: &str) -> (r: u8)
    ensures
        r == core_type_id(t@),
{
    if str_eq(t, "nested_type") {
        1
    } else if str_eq(t, "int8") {
        2
    } else if str_eq(t, "uint8") || str_eq(t, "char") {
        3
    } else if str_eq(t, "int16") {
        4
    } else if str_eq(t, "uint16") {
        5
    } else if str_eq(t, "int32") {
        6
    } else if str_eq(t, "uint32") {
        7
    } else if str_eq(t, "int64") {
        8
    } else if str_eq(t, "uint64") {
        9
    } else if str_eq(t, "float32") {
        10
    } else if str_eq(t, "float64") {
        11
    } else if str_eq(t, "long") {
        12
    } else if str_eq(t, "wchar") {
        14
    } else if str_eq(t, "bool") {
        15
    } else if str_eq(t, "octet") || str_eq(t, "byte") {
        16
    } else if str_eq(t, "string") {
        17
    } else if str_eq(t, "wstring") {
        18
    } else if str_eq(t, "bounded_string") {
        21
    } else if str_eq(t, "bounded_wstring") {
        22
    } else {
        1
    }
}

fn core_name_exec(id: u8) -> (r: &'static str)
    ensures
        r@ == core_name(id),
{
    if id == 2 {
        "INT8"
    } else if id == 3 {
        "UINT8"
    } else if id == 4 {
        "INT16"
    } else if id == 5 {
        "UINT16"
    } else if id == 6 {
        "INT32"
    } else if id == 7 {
        "UINT32"
    } else if id == 8 {
        "INT64"
    } else if id == 9 {
        "UINT64"
    } else if id == 10 {
        "FLOAT"
    } else if id == 11 {
        "DOUBLE"
    } else if id == 12 {
        "LONG_DOUBLE"
    } else if id == 14 {
        "WCHAR"
    } else if id == 15 {
        "BOOLEAN"
    } else if id == 16 {
        "BYTE"
    } else if id == 17 {
        "STRING"
    } else if id == 18 {
        "WSTRING"
    } else if id == 21 {
        "BOUNDED_STRING"
    } else if id == 22 {
        "BOUNDED_WSTRING"
    } else {
        "NESTED_TYPE"
    }
}

/// Returns the symbolic name that ROS 2's own tools use for a field type.
pub fn get_field_type_string(field_type: &crate::types::FieldType) -> (r: String)
    ensures
        r@ == spec_field_type_string(field_type@),
{
    let mut r = String::from_str("FIELD_TYPE_");
    if field_type.string_capacity.is_some() {
        r.append("BOUNDED_");
    } else {
        r.append("");
    }
    r.append(core_name_exec(core_type_id_exec(field_type.field_type.as_str())));
    let suffix = match field_type.array_info {
        ArrayType::NotArray => "",
        ArrayType::FixedLength(_) => "_ARRAY",
        ArrayType::Bounded(_) => "_BOUNDED_SEQUENCE",
        ArrayType::Unbounded => "_UNBOUNDED_SEQUENCE",
    };
    r.append(suffix);
    r
}

/// Converts a field type to the numeric tag of the ROS 2 hash format.
pub fn get_field_type_id(field_type: &crate::types::FieldType) -> (r: Result<u8, Error>)
    ensures
        match r {
            Ok(id) => spec_field_type_id(field_type@) == Some(id),
            Err(e) => spec_field_type_id(field_type@) is None && e@ == (ErrorView::UnknownFieldType {
                field: field_type@.field_type,
                symbolic_name: spec_field_type_string(field_type@),
            }),
        },
{
    let core = core_type_id_exec(field_type.field_type.as_str());
    let offset: u8 = match field_type.array_info {
        ArrayType::NotArray => 0,
        ArrayType::FixedLength(_) => 48,
        ArrayType::Bounded(_) => 96,
        ArrayType::Unbounded => 144,
    };
    if field_type.string_capacity.is_some() {
        if core == 17 || core == 18 {
            Ok(core + 4 + offset)
        } else {
            Err(
                Error::UnknownFieldType {
                    field: field_type.field_type.clone(),
                    symbolic_name: get_field_type_string(field_type),
                },
            )
        }
    } else {
        Ok(core + offset)
    }
}

/// The name under which a message is found among the known types: `pkg/Name`.
pub open spec fn full_name(m: ParsedMessageView) -> Seq<char> {
    m.package + "/"@ + m.name
}

/// The ROS 2 name of a message: `pkg/msg/Name`, or `pkg/srv/Name` for the parts of
/// a service.
pub open spec fn ros2_full_name(m: ParsedMessageView) -> Seq<char> {
    m.package + (if m.service_part {
        "/srv/"@
    } else {
        "/msg/"@
    }) + m.name
}

/// The name of the type that a non-intrinsic field refers to: `pkg/Type`.
pub open spec fn full_type_name(ft: FieldTypeView) -> Seq<char> {
    ft.package_name->0 + "/"@ + ft.field_type
}

pub open spec fn ends_with(s: Seq<char>, suffix: Seq<char>) -> bool {
    suffix.len() <= s.len() && s.subrange(s.len() - suffix.len(), s.len() as int) == suffix
}

/// Whether a type name is one of the parts that a service is made of.
pub open spec fn has_service_suffix(t: Seq<char>) -> bool {
    ends_with(t, "_Request"@) || ends_with(t, "_Response"@) || ends_with(t, "_Event"@)
}

/// The nested type name written for a field: empty for an intrinsic type, and
/// the service namespace for the parts of a service when `service_naming` holds.
pub open spec fn nested_type_name(ft: FieldTypeView, service_naming: bool) -> Seq<char> {
    if ft.package_name is None {
        seq![]
    } else if service_naming && has_service_suffix(ft.field_type) {
        ft.source_package + "/srv/"@ + ft.field_type
    } else {
        ft.package_name->0 + "/msg/"@ + ft.field_type
    }
}

/// Whether the array bound and the string capacity of a field type fit in the
/// 32 bits that a type description holds.
pub open spec fn capacities_fit(ft: FieldTypeView) -> bool {
    &&& match ft.array_info {
        ArrayType::Bounded(n) => n <= u32::MAX,
        ArrayType::FixedLength(n) => n <= u32::MAX,
        _ => true,
    }
    &&& match ft.string_capacity {
        Some(n) => n <= u32::MAX,
        None => true,
    }
}

pub open spec fn capacity_of(a: ArrayType) -> u32 {
    match a {
        ArrayType::Bounded(n) => n as u32,
        ArrayType::FixedLength(n) => n as u32,
        _ => 0,
    }
}

pub open spec fn string_capacity_of(c: Option<usize>) -> u32 {
    match c {
        Some(n) => n as u32,
        None => 0,
    }
}

/// The description of one field, given its numeric tag.
pub open spec fn field_desc(f: FieldInfoView, type_id: u8, service_naming: bool) -> FieldDescView {
    FieldDescView {
        name: f.field_name,
        field_type: FieldTypeDescView {
            type_id,
            capacity: capacity_of(f.field_type.array_info),
            string_capacity: string_capacity_of(f.field_type.string_capacity),
            nested_name: nested_type_name(f.field_type, service_naming),
        },
    }
}

/// The field that stands in for the members of an empty structure.
pub open spec fn placeholder_field() -> FieldDescView {
    FieldDescView {
        name: "structure_needs_at_least_one_member"@,
        field_type: FieldTypeDescView {
            type_id: 3,
            capacity: 0,
            string_capacity: 0,
            nested_name: seq![],
        },
    }
}

/// The names under which the known types are found.
pub open spec fn node_names(g: Seq<ParsedMessageView>) -> Seq<Seq<char>> {
    g.map_values(|m: ParsedMessageView| full_name(m))
}

/// The known types: the messages of the graph, then the synthetic parts `extras`.
/// Where two share a name the later one is found, as a map keeps the last value
/// stored under a key.
pub open spec fn nodes(extras: Seq<ParsedMessageFile>, graph: Seq<MessageFile>) -> Seq<
    ParsedMessageView,
> {
    graph.map_values(|m: MessageFile| m.parsed@) + extras.map_values(|p: ParsedMessageFile| p@)
}

pub type Described = (Seq<FieldDescView>, Map<Seq<char>, TypeDescriptionView>);

/// The descriptions of the first `i` fields of `p` and of every type they refer
/// to, keyed by name; `stack` holds the types whose description is under way.
pub open spec fn describe_fields(
    p: ParsedMessageView,
    g: Seq<ParsedMessageView>,
    service_naming: bool,
    stack: Seq<usize>,
    i: int,
) -> Result<Described, ErrorView>
    decreases g.len() - stack.len(), i,
{
    if i <= 0 || i > p.fields.len() {
        Ok((seq![], Map::empty()))
    } else {
        match describe_fields(p, g, service_naming, stack, i - 1) {
            Err(k) => Err(k),
            Ok((fs, refs)) => {
                let f = p.fields[i - 1];
                match spec_field_type_id(f.field_type) {
                    None => Err(
                        ErrorView::UnknownFieldType {
                            field: f.field_type.field_type,
                            symbolic_name: spec_field_type_string(f.field_type),
                        },
                    ),
                    Some(id) => if !capacities_fit(f.field_type) {
                        Err(ErrorView::CapacityTooLarge { field: f.field_name })
                    } else {
                        let fs2 = fs.push(field_desc(f, id, service_naming));
                        if f.field_type.package_name is None {
                            Ok((fs2, refs))
                        } else {
                            match node_names(g).index_of_last(full_type_name(f.field_type)) {
                                None => Err(
                                    ErrorView::MissingType {
                                        referrer: full_name(p),
                                        missing: full_type_name(f.field_type),
                                    },
                                ),
                                Some(k) => if stack.contains(k as usize) || stack.len() >= g.len() {
                                    Err(
                                        ErrorView::CyclicType {
                                            referrer: full_name(p),
                                            target: full_type_name(f.field_type),
                                        },
                                    )
                                } else {
                                    match describe(g[k], g, true, stack.push(k as usize)) {
                                        Err(e) => Err(e),
                                        Ok((td, sub)) => Ok(
                                            (fs2, refs.union_prefer_right(sub).insert(td.name, td)),
                                        ),
                                    }
                                },
                            }
                        }
                    },
                }
            },
        }
    }
}

/// The description of `p` and the descriptions of every type it refers to,
/// directly or through other types, keyed by name.
pub open spec fn describe(
    p: ParsedMessageView,
    g: Seq<ParsedMessageView>,
    service_naming: bool,
    stack: Seq<usize>,
) -> Result<(TypeDescriptionView, Map<Seq<char>, TypeDescriptionView>), ErrorView>
    decreases g.len() - stack.len(), p.fields.len() + 1,
{
    match describe_fields(p, g, service_naming, stack, p.fields.len() as int) {
        Err(k) => Err(k),
        Ok((fs, refs)) => Ok(
            (
                TypeDescriptionView {
                    name: ros2_full_name(p),
                    fields: if p.fields.len() == 0 {
                        seq![placeholder_field()]
                    } else {
                        fs
                    },
                },
                refs,
            ),
        ),
    }
}

proof fn lemma_fields_error(
    p: ParsedMessageView,
    g: Seq<ParsedMessageView>,
    service_naming: bool,
    stack: Seq<usize>,
    i: int,
    j: int,
)
    requires
        0 < i <= j <= p.fields.len(),
        describe_fields(p, g, service_naming, stack, i) is Err,
    ensures
        describe_fields(p, g, service_naming, stack, j) == describe_fields(
            p,
            g,
            service_naming,
            stack,
            i,
        ),
    decreases j - i,
{
    if i < j {
        lemma_fields_error(p, g, service_naming, stack, i, j - 1);
    }
}

fn full_name_exec(m: &ParsedMessageFile) -> (r: String)
    ensures
        r@ == full_name(m@),
{
    m.package.clone().concat("/").concat(m.name.as_str())
}

fn ros2_full_name_exec(m: &ParsedMessageFile) -> (r: String)
    ensures
        r@ == ros2_full_name(m@),
{
    let ns = if m.service_part {
        "/srv/"
    } else {
        "/msg/"
    };
    m.package.clone().concat(ns).concat(m.name.as_str())
}

fn nested_type_name_exec(ft: &crate::types::FieldType, service_naming: bool) -> (r: String)
    ensures
        r@ == nested_type_name(ft@, service_naming),
{
    match &ft.package_name {
        None => String::new(),
        Some(pkg) => {
            let t = ft.field_type.as_str();
            if service_naming && (has_suffix(t, "_Request") || has_suffix(t, "_Response")
                || has_suffix(t, "_Event")) {
                ft.source_package.clone().concat("/srv/").concat(t)
            } else {
                pkg.clone().concat("/msg/").concat(t)
            }
        },
    }
}

/// The capacities of a field type as 32-bit counts, if they fit.
fn capacities_exec(ft: &crate::types::FieldType) -> (r: Option<(u32, u32)>)
    ensures
        match r {
            Some((c, sc)) => capacities_fit(ft@) && c == capacity_of(ft.array_info) && sc
                == string_capacity_of(ft.string_capacity),
            None => !capacities_fit(ft@),
        },
{
    let capacity = match ft.array_info {
        ArrayType::Bounded(n) | ArrayType::FixedLength(n) => {
            if n > u32::MAX as usize {
                return None;
            }
            n as u32
        },
        _ => 0,
    };
    let string_capacity = match ft.string_capacity {
        Some(n) => {
            if n > u32::MAX as usize {
                return None;
            }
            n as u32
        },
        None => 0,
    };
    Some((capacity, string_capacity))
}

/// Looks a type up by name: the position of the last known type of that name.
fn find_node(extras: &Vec<ParsedMessageFile>, graph: &Vec<MessageFile>, name: &String) -> (r:
    Option<usize>)
    requires
        extras@.len() + graph@.len() <= usize::MAX,
    ensures
        node_names(nodes(extras@, graph@)).index_of_last(name@) == match r {
            Some(k) => Some(k as int),
            None => None::<int>,
        },
        r matches Some(k) ==> k < extras@.len() + graph@.len(),
{
    let ghost names = node_names(nodes(extras@, graph@));
    let g = graph.len();
    let mut k: usize = extras.len();
    while k > 0
        invariant
            k <= extras@.len(),
            g == graph@.len(),
            extras@.len() + graph@.len() <= usize::MAX,
            names == node_names(nodes(extras@, graph@)),
            forall|x: int| g + k <= x < names.len() ==> names[x] != name@,
        decreases k,
    {
        k = k - 1;
        if full_name_exec(&extras[k]) == *name {
            proof {
                lemma_last_index(names, name@, Some((g + k) as usize));
            }
            return Some(g + k);
        }
    }
    let mut j: usize = g;
    while j > 0
        invariant
            j <= graph@.len(),
            g == graph@.len(),
            extras@.len() + graph@.len() <= usize::MAX,
            names == node_names(nodes(extras@, graph@)),
            forall|x: int| j <= x < names.len() ==> names[x] != name@,
        decreases j,
    {
        j = j - 1;
        if full_name_exec(&graph[j].parsed) == *name {
            proof {
                lemma_last_index(names, name@, Some(j));
            }
            return Some(j);
        }
    }
    proof {
        lemma_last_index(names, name@, None);
    }
    None
}

fn node_at<'a>(extras: &'a Vec<ParsedMessageFile>, graph: &'a Vec<MessageFile>, k: usize) -> (r:
    &'a ParsedMessageFile)
    requires
        k < extras@.len() + graph@.len(),
    ensures
        r@ == nodes(extras@, graph@)[k as int],
{
    if k < graph.len() {
        &graph[k].parsed
    } else {
        &extras[k - graph.len()]
    }
}

fn stack_contains(stack: &Vec<usize>, k: usize) -> (r: bool)
    ensures
        r == stack@.contains(k),
{
    let mut i: usize = 0;
    while i < stack.len()
        invariant
            i <= stack@.len(),
            forall|j: int| 0 <= j < i ==> stack@[j] != k,
        decreases stack.len() - i,
    {
        if stack[i] == k {
            return true;
        }
        i = i + 1;
    }
    false
}

fn describe_exec(
    p: &ParsedMessageFile,
    extras: &Vec<ParsedMessageFile>,
    graph: &Vec<MessageFile>,
    service_naming: bool,
    stack: &mut Vec<usize>,
) -> (r: Result<(TypeDescription, Vec<TypeDescription>), Error>)
    requires
        extras@.len() + graph@.len() <= usize::MAX,
    ensures
        final(stack)@ == old(stack)@,
        match r {
            Ok((td, refs)) => {
                &&& describe(p@, nodes(extras@, graph@), service_naming, old(stack)@) == Ok::<
                    (TypeDescriptionView, Map<Seq<char>, TypeDescriptionView>),
                    ErrorView,
                >((td@, map_of(descs_view(refs@))))
                &&& sorted_by_name(descs_view(refs@))
            },
            Err(e) => describe(p@, nodes(extras@, graph@), service_naming, old(stack)@) == Err::<
                (TypeDescriptionView, Map<Seq<char>, TypeDescriptionView>),
                ErrorView,
            >(e@),
        },
    decreases extras@.len() + graph@.len() - stack@.len(),
{
    let ghost g = nodes(extras@, graph@);
    let ghost stack0 = stack@;
    let ghost pv = p@;
    let n_nodes = extras.len() + graph.len();
    let mut fields: Vec<Field> = Vec::new();
    let mut refs: Vec<TypeDescription> = Vec::new();
    let mut i: usize = 0;
    proof {
        assert(field_descs_view(fields@) =~= Seq::<FieldDescView>::empty());
        assert(map_of(descs_view(refs@)) =~= Map::<Seq<char>, TypeDescriptionView>::empty());
        assert(g.len() == n_nodes);
    }
    while i < p.fields.len()
        invariant
            i <= p.fields@.len(),
            g == nodes(extras@, graph@),
            g.len() == n_nodes,
            pv == p@,
            stack@ == stack0,
            stack0 == old(stack)@,
            extras@.len() + graph@.len() <= usize::MAX,
            sorted_by_name(descs_view(refs@)),
            describe_fields(pv, g, service_naming, stack0, i as int) == Ok::<
                Described,
                ErrorView,
            >((field_descs_view(fields@), map_of(descs_view(refs@)))),
        decreases p.fields.len() - i,
    {
        let f = &p.fields[i];
        assert(pv.fields[i as int] == f@);
        let type_id = match get_field_type_id(&f.field_type) {
            Ok(id) => id,
            Err(e) => {
                proof {
                    lemma_fields_error(pv, g, service_naming, stack0, i + 1, pv.fields.len() as int);
                }
                return Err(e);
            },
        };
        let (capacity, string_capacity) = match capacities_exec(&f.field_type) {
            Some(c) => c,
            None => {
                proof {
                    lemma_fields_error(pv, g, service_naming, stack0, i + 1, pv.fields.len() as int);
                }
                return Err(Error::CapacityTooLarge { field: f.field_name.clone() });
            },
        };
        let desc = Field {
            name: f.field_name.clone(),
            field_type: FieldType {
                type_id,
                capacity,
                string_capacity,
                nested_name: nested_type_name_exec(&f.field_type, service_naming),
            },
            default_value: String::new(),
        };
        assert(desc@ == field_desc(f@, type_id, service_naming));
        let ghost fs_before = fields@;
        fields.push(desc);
        assert(field_descs_view(fields@) =~= field_descs_view(fs_before).push(
            field_desc(f@, type_id, service_naming),
        ));
        match &f.field_type.package_name {
            None => {},
            Some(pkg) => {
                let name = pkg.clone().concat("/").concat(f.field_type.field_type.as_str());
                assert(name@ == full_type_name(f.field_type@));
                let k = match find_node(extras, graph, &name) {
                    Some(k) => k,
                    None => {
                        proof {
                            lemma_fields_error(
                                pv,
                                g,
                                service_naming,
                                stack0,
                                i + 1,
                                pv.fields.len() as int,
                            );
                        }
                        return Err(Error::MissingType { referrer: full_name_exec(p), missing: name });
                    },
                };
                if stack_contains(stack, k) || stack.len() >= n_nodes {
                    proof {
                        lemma_fields_error(
                            pv,
                            g,
                            service_naming,
                            stack0,
                            i + 1,
                            pv.fields.len() as int,
                        );
                    }
                    return Err(Error::CyclicType { referrer: full_name_exec(p), target: name });
                }
                let node = node_at(extras, graph, k);
                stack.push(k);
                let sub = describe_exec(node, extras, graph, true, stack);
                stack.pop();
                assert(stack@ =~= stack0);
                match sub {
                    Err(e) => {
                        proof {
                            lemma_fields_error(
                                pv,
                                g,
                                service_naming,
                                stack0,
                                i + 1,
                                pv.fields.len() as int,
                            );
                        }
                        return Err(e);
                    },
                    Ok((td, sub_refs)) => {
                        let ghost before = map_of(descs_view(refs@));
                        let ghost tdv = td@;
                        merge_descriptions(&mut refs, sub_refs);
                        insert_description(&mut refs, td);
                        assert(map_of(descs_view(refs@)) == before.union_prefer_right(
                            map_of(descs_view(sub_refs@)),
                        ).insert(tdv.name, tdv));
                    },
                }
            },
        }
        i = i + 1;
    }
    let fields = if p.fields.len() == 0 {
        let mut only: Vec<Field> = Vec::new();
        only.push(
            Field {
                name: String::from_str("structure_needs_at_least_one_member"),
                field_type: FieldType {
                    type_id: 3,
                    capacity: 0,
                    string_capacity: 0,
                    nested_name: String::new(),
                },
                default_value: String::new(),
            },
        );
        assert(field_descs_view(only@) =~= seq![placeholder_field()]);
        only
    } else {
        fields
    };
    Ok((TypeDescription { name: ros2_full_name_exec(p), fields }, refs))
}

/// The vector ordered by name that holds the descriptions of `m`.
pub open spec fn ordered(m: Map<Seq<char>, TypeDescriptionView>) -> Seq<TypeDescriptionView> {
    choose|v: Seq<TypeDescriptionView>| sorted_by_name(v) && map_of(v) == m
}

/// The canonical structural form of `p` among the known types `g`.
pub open spec fn description_msg(
    p: ParsedMessageView,
    g: Seq<ParsedMessageView>,
    service_naming: bool,
) -> Result<TypeDescriptionMsgView, ErrorView> {
    match describe(p, g, service_naming, seq![]) {
        Err(k) => Err(k),
        Ok((td, refs)) => Ok(
            TypeDescriptionMsgView {
                type_description: td,
                referenced_type_descriptions: ordered(refs),
            },
        ),
    }
}

/// The content hash of a canonical structural form: the SHA-256 digest of the
/// UTF-8 bytes of its canonical JSON text.
pub open spec fn ros2_hash_of(m: TypeDescriptionMsgView) -> Seq<u8> {
    sha256_of(encode_utf8(json_msg(m)))
}

fn describe_top(
    p: &ParsedMessageFile,
    extras: &Vec<ParsedMessageFile>,
    graph: &Vec<MessageFile>,
    service_naming: bool,
) -> (r: Result<TypeDescriptionMsg, Error>)
    requires
        extras@.len() + graph@.len() <= usize::MAX,
    ensures
        match r {
            Ok(m) => description_msg(p@, nodes(extras@, graph@), service_naming) == Ok::<
                TypeDescriptionMsgView,
                ErrorView,
            >(m@) && sorted_by_name(m@.referenced_type_descriptions),
            Err(e) => description_msg(p@, nodes(extras@, graph@), service_naming) == Err::<
                TypeDescriptionMsgView,
                ErrorView,
            >(e@),
        },
{
    let mut stack: Vec<usize> = Vec::new();
    assert(stack@ =~= Seq::<usize>::empty());
    match describe_exec(p, extras, graph, service_naming, &mut stack) {
        Err(e) => Err(e),
        Ok((td, refs)) => {
            proof {
                let v = descs_view(refs@);
                let m = map_of(v);
                assert(sorted_by_name(v) && map_of(v) == m);
                let w = ordered(m);
                lemma_sorted_unique(v, w);
            }
            Ok(TypeDescriptionMsg { type_description: td, referenced_type_descriptions: refs })
        },
    }
}

/// Lowers a parsed message into the canonical structural form of the ROS 2 hash,
/// looking the types it refers to up in `graph`.
pub fn convert_to_type_description(
    parsed: &ParsedMessageFile,
    graph: &Vec<MessageFile>,
    service_naming: bool,
) -> (r: Result<TypeDescriptionMsg, Error>)
    ensures
        match r {
            Ok(m) => {
                &&& description_msg(parsed@, nodes(seq![], graph@), service_naming) == Ok::<
                    TypeDescriptionMsgView,
                    ErrorView,
                >(m@)
                &&& sorted_by_name(m@.referenced_type_descriptions)
            },
            Err(e) => description_msg(parsed@, nodes(seq![], graph@), service_naming) == Err::<
                TypeDescriptionMsgView,
                ErrorView,
            >(e@),
        },
{
    let extras: Vec<ParsedMessageFile> = Vec::new();
    assert(extras@ =~= Seq::<ParsedMessageFile>::empty());
    let n = graph.len();
    describe_top(parsed, &extras, graph, service_naming)
}

/// Hashes a canonical structural form.
pub fn calculate_hash(type_description_msg: &TypeDescriptionMsg) -> (r: Ros2Hash)
    ensures
        r.0@ == ros2_hash_of(type_description_msg@),
{
    let text = to_ros2_json(type_description_msg);
    Ros2Hash(sha256(text.as_str().as_bytes()))
}

/// Calculates the ROS 2 content hash of a message whose nested types are in `graph`.
pub fn calculate_ros2_hash(parsed: &ParsedMessageFile, graph: &Vec<MessageFile>) -> (r: Result<
    Ros2Hash,
    Error,
>)
    ensures
        match description_msg(parsed@, nodes(seq![], graph@), false) {
            Ok(m) => r matches Ok(h) && h.0@ == ros2_hash_of(m),
            Err(k) => r matches Err(e) && e@ == k,
        },
{
    let msg = convert_to_type_description(parsed, graph, false)?;
    Ok(calculate_hash(&msg))
}

impl crate::types::FieldType {
    /// A copy with the same value.
    pub fn copy(&self) -> (r: Self)
        ensures
            r@ == self@,
    {
        crate::types::FieldType {
            package_name: match &self.package_name {
                Some(p) => Some(p.clone()),
                None => None,
            },
            source_package: self.source_package.clone(),
            field_type: self.field_type.clone(),
            array_info: self.array_info,
            string_capacity: self.string_capacity,
        }
    }
}

impl FieldInfo {
    /// A copy with the same value.
    pub fn copy(&self) -> (r: Self)
        ensures
            r@ == self@,
    {
        FieldInfo {
            field_type: self.field_type.copy(),
            field_name: self.field_name.clone(),
            default: match &self.default {
                Some(d) => Some(d.clone()),
                None => None,
            },
        }
    }
}

impl ConstantInfo {
    /// A copy with the same value.
    pub fn copy(&self) -> (r: Self)
        ensures
            r@ == self@,
    {
        ConstantInfo {
            constant_type: self.constant_type.clone(),
            constant_name: self.constant_name.clone(),
            constant_value: self.constant_value.clone(),
        }
    }
}

impl ParsedMessageFile {
    /// A copy of this message under another name.
    pub fn renamed(&self, name: String, service_part: bool) -> (r: Self)
        ensures
            r@ == (ParsedMessageView { name: name@, service_part, ..self@ }),
    {
        let mut fields: Vec<FieldInfo> = Vec::new();
        let mut i: usize = 0;
        while i < self.fields.len()
            invariant
                i <= self.fields@.len(),
                fields_view(fields@) == fields_view(self.fields@).take(i as int),
            decreases self.fields.len() - i,
        {
            let c = self.fields[i].copy();
            let ghost before = fields@;
            fields.push(c);
            assert(fields@ == before.push(c));
            assert(c@ == self.fields@[i as int]@);
            assert(fields_view(fields@) =~= fields_view(before).push(c@));
            assert(fields_view(self.fields@).take(i + 1) =~= fields_view(self.fields@).take(
                i as int,
            ).push(c@));
            i = i + 1;
        }
        let mut constants: Vec<ConstantInfo> = Vec::new();
        let mut j: usize = 0;
        while j < self.constants.len()
            invariant
                j <= self.constants@.len(),
                constants_view(constants@) == constants_view(self.constants@).take(j as int),
            decreases self.constants.len() - j,
        {
            let c = self.constants[j].copy();
            let ghost before = constants@;
            constants.push(c);
            assert(constants@ == before.push(c));
            assert(c@ == self.constants@[j as int]@);
            assert(constants_view(constants@) =~= constants_view(before).push(c@));
            assert(constants_view(self.constants@).take(j + 1) =~= constants_view(
                self.constants@,
            ).take(j as int).push(c@));
            j = j + 1;
        }
        assert(fields_view(fields@) =~= fields_view(self.fields@));
        assert(constants_view(constants@) =~= constants_view(self.constants@));
        ParsedMessageFile {
            name,
            package: self.package.clone(),
            fields,
            constants,
            version: self.version,
            source: self.source.clone(),
            path: self.path.clone(),
            service_part,
        }
    }
}

/// A field of a service part that refers to another type by package and name.
pub open spec fn part_field(
    field_name: Seq<char>,
    pkg: Seq<char>,
    ty: Seq<char>,
    array_info: ArrayType,
) -> FieldInfoView {
    FieldInfoView {
        field_type: FieldTypeView {
            package_name: Some(pkg),
            source_package: pkg,
            field_type: ty,
            array_info,
            string_capacity: None,
        },
        field_name,
        default: None,
    }
}

/// A message of a service that exists only to be hashed.
pub open spec fn synthetic_message(
    s: ParsedServiceFile,
    name: Seq<char>,
    fields: Seq<FieldInfoView>,
) -> ParsedMessageView {
    ParsedMessageView {
        name,
        package: s.package@,
        fields,
        constants: seq![],
        version: Some(RosVersion::ROS2),
        source: seq![],
        path: s.path@,
        service_part: true,
    }
}

/// The event type of a service: the event metadata, and the request and the
/// response each as an optional value (a bounded array of at most one).
pub open spec fn service_event(s: ParsedServiceFile) -> ParsedMessageView {
    synthetic_message(
        s,
        s.name@ + "_Event"@,
        seq![
            part_field("info"@, "service_msgs"@, "ServiceEventInfo"@, ArrayType::NotArray),
            part_field("request"@, s.package@, s.name@ + "_Request"@, ArrayType::Bounded(1)),
            part_field("response"@, s.package@, s.name@ + "_Response"@, ArrayType::Bounded(1)),
        ],
    )
}

/// The type that a service is hashed as: its request, response and event.
pub open spec fn service_aggregate(s: ParsedServiceFile) -> ParsedMessageView {
    synthetic_message(
        s,
        s.name@,
        seq![
            part_field("request_message"@, s.package@, s.name@ + "_Request"@, ArrayType::NotArray),
            part_field(
                "response_message"@,
                s.package@,
                s.name@ + "_Response"@,
                ArrayType::NotArray,
            ),
            part_field("event_message"@, s.package@, s.name@ + "_Event"@, ArrayType::NotArray),
        ],
    )
}

/// The synthetic types of a service, found before any type of the graph.
pub open spec fn service_parts(s: ParsedServiceFile) -> Seq<ParsedMessageView> {
    seq![
        service_event(s),
        ParsedMessageView { name: s.name@ + "_Request"@, service_part: true, ..s.request_type@ },
        ParsedMessageView { name: s.name@ + "_Response"@, service_part: true, ..s.response_type@ },
    ]
}

fn part_field_exec(field_name: &str, pkg: &String, ty: &String, array_info: ArrayType) -> (r:
    FieldInfo)
    ensures
        r@ == part_field(field_name@, pkg@, ty@, array_info),
{
    FieldInfo {
        field_type: crate::types::FieldType {
            package_name: Some(pkg.clone()),
            source_package: pkg.clone(),
            field_type: ty.clone(),
            array_info,
            string_capacity: None,
        },
        field_name: field_name.to_owned(),
        default: None,
    }
}

fn synthetic_exec(s: &ParsedServiceFile, name: String, fields: Vec<FieldInfo>) -> (r:
    ParsedMessageFile)
    ensures
        r@ == synthetic_message(*s, name@, fields_view(fields@)),
{
    let constants: Vec<ConstantInfo> = Vec::new();
    assert(constants_view(constants@) =~= Seq::<ConstantInfoView>::empty());
    ParsedMessageFile {
        name,
        package: s.package.clone(),
        fields,
        constants,
        version: Some(RosVersion::ROS2),
        source: String::new(),
        path: s.path.clone(),
        service_part: true,
    }
}

/// Calculates the ROS 2 content hash of a service: the hash of an aggregate of
/// its request, its response and its event type.
pub fn calculate_ros2_srv_hash(parsed: &ParsedServiceFile, graph: &Vec<MessageFile>) -> (r: Result<
    Ros2Hash,
    Error,
>)
    requires
        graph@.len() + 3 <= usize::MAX,
    ensures
        match description_msg(
            service_aggregate(*parsed),
            nodes(seq![], graph@) + service_parts(*parsed),
            true,
        ) {
            Ok(m) => r matches Ok(h) && h.0@ == ros2_hash_of(m),
            Err(k) => r matches Err(e) && e@ == k,
        },
{
    let request_type = parsed.name.clone().concat("_Request");
    let response_type = parsed.name.clone().concat("_Response");
    let event_type = parsed.name.clone().concat("_Event");
    let pkg = &parsed.package;
    let service_msgs = String::from_str("service_msgs");
    let event_info = String::from_str("ServiceEventInfo");

    let mut event_fields: Vec<FieldInfo> = Vec::new();
    event_fields.push(part_field_exec("info", &service_msgs, &event_info, ArrayType::NotArray));
    event_fields.push(part_field_exec("request", pkg, &request_type, ArrayType::Bounded(1)));
    event_fields.push(part_field_exec("response", pkg, &response_type, ArrayType::Bounded(1)));
    let ghost ev = fields_view(event_fields@);
    assert(ev =~= service_event(*parsed).fields);
    let event = synthetic_exec(parsed, event_type.clone(), event_fields);

    let mut total_fields: Vec<FieldInfo> = Vec::new();
    total_fields.push(
        part_field_exec("request_message", pkg, &request_type, ArrayType::NotArray),
    );
    total_fields.push(
        part_field_exec("response_message", pkg, &response_type, ArrayType::NotArray),
    );
    total_fields.push(part_field_exec("event_message", pkg, &event_type, ArrayType::NotArray));
    let ghost tv = fields_view(total_fields@);
    assert(tv =~= service_aggregate(*parsed).fields);
    let total = synthetic_exec(parsed, parsed.name.clone(), total_fields);

    let mut extras: Vec<ParsedMessageFile> = Vec::new();
    extras.push(event);
    extras.push(parsed.request_type.renamed(request_type, true));
    extras.push(parsed.response_type.renamed(response_type, true));
    assert(nodes(extras@, graph@) =~= nodes(seq![], graph@) + service_parts(*parsed));
    let msg = describe_top(&total, &extras, graph, true)?;
    Ok(calculate_hash(&msg))
}

impl Ros2Hash {
    /// The text form of the hash: `RIHS01_` and 64 lower-case hexadecimal digits.
    pub fn to_hash_string(&self) -> (r: String)
        ensures
            r@ == "RIHS01_"@ + crate::digest::hex_of(self.0@),
    {
        let hex = crate::digest::to_hex(&self.0);
        String::from_str("RIHS01_").concat(hex.as_str())
    }
}

/// The content hash does not depend on the order in which the referenced types
/// were gathered: two lists ordered by name that hold the same descriptions give
/// the same canonical text, and so the same hash.
pub proof fn law_hash_independent_of_gathering_order(
    td: TypeDescriptionView,
    a: Seq<TypeDescriptionView>,
    b: Seq<TypeDescriptionView>,
)
    requires
        sorted_by_name(a),
        sorted_by_name(b),
        map_of(a) == map_of(b),
    ensures
        json_msg(TypeDescriptionMsgView { type_description: td, referenced_type_descriptions: a })
            == json_msg(
            TypeDescriptionMsgView { type_description: td, referenced_type_descriptions: b },
        ),
        ros2_hash_of(TypeDescriptionMsgView { type_description: td, referenced_type_descriptions: a })
            == ros2_hash_of(
            TypeDescriptionMsgView { type_description: td, referenced_type_descriptions: b },
        ),
{
    lemma_sorted_unique(a, b);
}

/// A message with no fields is described by one placeholder field: named for the
/// rule that a structure needs a member, of the smallest unsigned type, with no
/// capacities and no nested type.
pub proof fn law_empty_message(p: ParsedMessageView, g: Seq<ParsedMessageView>, service_naming: bool)
    requires
        p.fields.len() == 0,
    ensures
        description_msg(p, g, service_naming) is Ok,
        description_msg(p, g, service_naming)->Ok_0.type_description.fields == seq![
            placeholder_field(),
        ],
        placeholder_field().name == "structure_needs_at_least_one_member"@,
        placeholder_field().field_type.type_id == 3,
        placeholder_field().field_type.capacity == 0,
        placeholder_field().field_type.string_capacity == 0,
        placeholder_field().field_type.nested_name.len() == 0,
{
}

/// A field with what the description does not read, its default value, cleared.
pub open spec fn field_skeleton(f: FieldInfoView) -> FieldInfoView {
    FieldInfoView { default: None, ..f }
}

/// A message with what the description does not read cleared: its constants,
/// its text, its path and the default values of its fields.
pub open spec fn skeleton(m: ParsedMessageView) -> ParsedMessageView {
    ParsedMessageView {
        fields: m.fields.map_values(|f: FieldInfoView| field_skeleton(f)),
        constants: seq![],
        source: seq![],
        path: seq![],
        ..m
    }
}

pub open spec fn skeletons(g: Seq<ParsedMessageView>) -> Seq<ParsedMessageView> {
    g.map_values(|m: ParsedMessageView| skeleton(m))
}

proof fn lemma_describe_fields_skeleton(
    p: ParsedMessageView,
    g: Seq<ParsedMessageView>,
    service_naming: bool,
    stack: Seq<usize>,
    i: int,
)
    ensures
        describe_fields(p, g, service_naming, stack, i) == describe_fields(
            skeleton(p),
            skeletons(g),
            service_naming,
            stack,
            i,
        ),
    decreases g.len() - stack.len(), i,
{
    let sp = skeleton(p);
    let sg = skeletons(g);
    if i <= 0 || i > p.fields.len() {
    } else {
        lemma_describe_fields_skeleton(p, g, service_naming, stack, i - 1);
        let f = p.fields[i - 1];
        assert(sp.fields[i - 1] == field_skeleton(f));
        assert(node_names(sg) =~= node_names(g));
        match describe_fields(p, g, service_naming, stack, i - 1) {
            Err(_) => {},
            Ok(_) => {
                if spec_field_type_id(f.field_type) is Some && capacities_fit(f.field_type)
                    && f.field_type.package_name is Some {
                    match node_names(g).index_of_last(full_type_name(f.field_type)) {
                        None => {},
                        Some(k) => {
                            node_names(g).index_of_last_ensures(full_type_name(f.field_type));
                            if !(stack.contains(k as usize) || stack.len() >= g.len()) {
                                assert(sg[k] == skeleton(g[k]));
                                lemma_describe_skeleton(g[k], g, true, stack.push(k as usize));
                            }
                        },
                    }
                }
            },
        }
    }
}

proof fn lemma_describe_skeleton(
    p: ParsedMessageView,
    g: Seq<ParsedMessageView>,
    service_naming: bool,
    stack: Seq<usize>,
)
    ensures
        describe(p, g, service_naming, stack) == describe(
            skeleton(p),
            skeletons(g),
            service_naming,
            stack,
        ),
    decreases g.len() - stack.len(), p.fields.len() + 1,
{
    lemma_describe_fields_skeleton(p, g, service_naming, stack, p.fields.len() as int);
}

/// The description of a message reads neither its constants, nor its text, nor
/// its path, nor the default values of its fields: two messages that differ
/// only there are described alike.
pub proof fn law_description_ignores_text(
    p1: ParsedMessageView,
    p2: ParsedMessageView,
    g: Seq<ParsedMessageView>,
    service_naming: bool,
)
    requires
        skeleton(p1) == skeleton(p2),
    ensures
        description_msg(p1, g, service_naming) == description_msg(p2, g, service_naming),
{
    lemma_describe_skeleton(p1, g, service_naming, seq![]);
    lemma_describe_skeleton(p2, g, service_naming, seq![]);
}

/// The hash of a service reads neither the constants, text or path of its
/// request and response, nor the default values of their fields, nor the path
/// of the service file.
pub proof fn law_service_hash_ignores_text(
    s1: ParsedServiceFile,
    s2: ParsedServiceFile,
    g: Seq<ParsedMessageView>,
)
    requires
        s1.name@ == s2.name@,
        s1.package@ == s2.package@,
        skeleton(s1.request_type@) == skeleton(s2.request_type@),
        skeleton(s1.response_type@) == skeleton(s2.response_type@),
    ensures
        description_msg(service_aggregate(s1), g + service_parts(s1), true) == description_msg(
            service_aggregate(s2),
            g + service_parts(s2),
            true,
        ),
{
    let g1 = g + service_parts(s1);
    let g2 = g + service_parts(s2);
    lemma_describe_skeleton(service_aggregate(s1), g1, true, seq![]);
    lemma_describe_skeleton(service_aggregate(s2), g2, true, seq![]);
    assert(skeleton(service_aggregate(s1)) =~= skeleton(service_aggregate(s2)));
    let r1 = ParsedMessageView { name: s1.name@ + "_Request"@, service_part: true, ..s1.request_type@ };
    let r2 = ParsedMessageView { name: s2.name@ + "_Request"@, service_part: true, ..s2.request_type@ };
    let q1 = ParsedMessageView { name: s1.name@ + "_Response"@, service_part: true, ..s1.response_type@ };
    let q2 = ParsedMessageView { name: s2.name@ + "_Response"@, service_part: true, ..s2.response_type@ };
    assert(skeleton(r1).fields == skeleton(s1.request_type@).fields);
    assert(skeleton(r2).fields == skeleton(s2.request_type@).fields);
    assert(skeleton(r1) =~= skeleton(r2));
    assert(skeleton(q1).fields == skeleton(s1.response_type@).fields);
    assert(skeleton(q2).fields == skeleton(s2.response_type@).fields);
    assert(skeleton(q1) =~= skeleton(q2));
    assert(skeleton(service_event(s1)) =~= skeleton(service_event(s2)));
    assert(skeletons(g1) =~= skeletons(g2)) by {
        assert forall|j: int| 0 <= j < skeletons(g1).len() implies skeletons(g1)[j] == skeletons(
            g2,
        )[j] by {
            if j >= g.len() {
                let t = j - g.len();
                if t == 0 {
                    assert(g1[j] == service_event(s1));
                    assert(g2[j] == service_event(s2));
                } else if t == 1 {
                    assert(g1[j] == r1);
                    assert(g2[j] == r2);
                } else {
                    assert(g1[j] == q1);
                    assert(g2[j] == q2);
                }
            }
        }
    }
}

/// Whether no two messages of `g` share a full name.
pub open spec fn unique_names(g: Seq<ParsedMessageView>) -> bool {
    forall|i: int, j: int|
        0 <= i < g.len() && 0 <= j < g.len() && #[trigger] full_name(g[i]) == #[trigger] full_name(
            g[j],
        ) ==> i == j
}

/// Whether `sigma` and its inverse `tau` carry each position of `g1` to the
/// position of the same message in `g2`.
pub open spec fn reorders(
    g1: Seq<ParsedMessageView>,
    g2: Seq<ParsedMessageView>,
    sigma: spec_fn(int) -> int,
    tau: spec_fn(int) -> int,
) -> bool {
    &&& g1.len() == g2.len()
    &&& forall|i: int|
        0 <= i < g1.len() ==> 0 <= #[trigger] sigma(i) < g1.len() && tau(sigma(i)) == i && g2[sigma(
            i,
        )] == g1[i]
    &&& forall|j: int| 0 <= j < g1.len() ==> 0 <= #[trigger] tau(j) < g1.len() && sigma(tau(j)) == j
}

pub open spec fn moved(st: Seq<usize>, sigma: spec_fn(int) -> int) -> Seq<usize> {
    st.map_values(|x: usize| sigma(x as int) as usize)
}

proof fn lemma_lookup_reordered(
    g1: Seq<ParsedMessageView>,
    g2: Seq<ParsedMessageView>,
    sigma: spec_fn(int) -> int,
    tau: spec_fn(int) -> int,
    name: Seq<char>,
)
    requires
        unique_names(g1),
        reorders(g1, g2, sigma, tau),
    ensures
        match node_names(g1).index_of_last(name) {
            None => node_names(g2).index_of_last(name) is None,
            Some(k) => node_names(g2).index_of_last(name) == Some(sigma(k)),
        },
{
    let n1 = node_names(g1);
    let n2 = node_names(g2);
    n1.index_of_last_ensures(name);
    n2.index_of_last_ensures(name);
    match n1.index_of_last(name) {
        None => {
            if n2.contains(name) {
                let j = choose|j: int| 0 <= j < n2.len() && n2[j] == name;
                assert(g1[tau(j)] == g2[j]);
                assert(n1[tau(j)] == name);
            }
        },
        Some(k) => {
            assert(n2[sigma(k)] == name);
            let k2 = n2.index_of_last(name)->0;
            assert(g2[k2] == g1[tau(k2)]);
            assert(full_name(g1[tau(k2)]) == full_name(g1[k]));
            assert(tau(k2) == k);
        },
    }
}

proof fn lemma_fields_reordered(
    p: ParsedMessageView,
    g1: Seq<ParsedMessageView>,
    g2: Seq<ParsedMessageView>,
    sigma: spec_fn(int) -> int,
    tau: spec_fn(int) -> int,
    service_naming: bool,
    stack: Seq<usize>,
    i: int,
)
    requires
        unique_names(g1),
        reorders(g1, g2, sigma, tau),
        g1.len() <= usize::MAX,
        forall|j: int| 0 <= j < stack.len() ==> stack[j] < g1.len(),
    ensures
        describe_fields(p, g1, service_naming, stack, i) == describe_fields(
            p,
            g2,
            service_naming,
            moved(stack, sigma),
            i,
        ),
    decreases g1.len() - stack.len(), i,
{
    if i <= 0 || i > p.fields.len() {
    } else {
        lemma_fields_reordered(p, g1, g2, sigma, tau, service_naming, stack, i - 1);
        let f = p.fields[i - 1];
        let st2 = moved(stack, sigma);
        if spec_field_type_id(f.field_type) is Some && capacities_fit(f.field_type)
            && f.field_type.package_name is Some {
            let name = full_type_name(f.field_type);
            lemma_lookup_reordered(g1, g2, sigma, tau, name);
            match node_names(g1).index_of_last(name) {
                None => {},
                Some(k) => {
                    node_names(g1).index_of_last_ensures(name);
                    assert(stack.contains(k as usize) == st2.contains(sigma(k) as usize)) by {
                        if stack.contains(k as usize) {
                            let j = choose|j: int| 0 <= j < stack.len() && stack[j] == k as usize;
                            assert(st2[j] == sigma(k) as usize);
                        }
                        if st2.contains(sigma(k) as usize) {
                            let j = choose|j: int| 0 <= j < st2.len() && st2[j] == sigma(k) as usize;
                            assert(sigma(stack[j] as int) == sigma(k));
                            assert(tau(sigma(stack[j] as int)) == stack[j] as int);
                        }
                    }
                    if !(stack.contains(k as usize) || stack.len() >= g1.len()) {
                        let pushed = stack.push(k as usize);
                        assert(moved(pushed, sigma) =~= st2.push(sigma(k) as usize));
                        lemma_describe_reordered(
                            g1[k],
                            g1,
                            g2,
                            sigma,
                            tau,
                            true,
                            pushed,
                        );
                    }
                },
            }
        }
    }
}

proof fn lemma_describe_reordered(
    p: ParsedMessageView,
    g1: Seq<ParsedMessageView>,
    g2: Seq<ParsedMessageView>,
    sigma: spec_fn(int) -> int,
    tau: spec_fn(int) -> int,
    service_naming: bool,
    stack: Seq<usize>,
)
    requires
        unique_names(g1),
        reorders(g1, g2, sigma, tau),
        g1.len() <= usize::MAX,
        forall|j: int| 0 <= j < stack.len() ==> stack[j] < g1.len(),
    ensures
        describe(p, g1, service_naming, stack) == describe(
            p,
            g2,
            service_naming,
            moved(stack, sigma),
        ),
    decreases g1.len() - stack.len(), p.fields.len() + 1,
{
    lemma_fields_reordered(p, g1, g2, sigma, tau, service_naming, stack, p.fields.len() as int);
}

/// When the known types have distinct names, the description of a message does
/// not depend on the order in which they were stored: `g2` holds the messages of
/// `g1` at the positions `sigma` gives.
pub proof fn law_description_independent_of_graph_order(
    p: ParsedMessageView,
    g1: Seq<ParsedMessageView>,
    g2: Seq<ParsedMessageView>,
    sigma: spec_fn(int) -> int,
    tau: spec_fn(int) -> int,
    service_naming: bool,
)
    requires
        unique_names(g1),
        reorders(g1, g2, sigma, tau),
        g1.len() <= usize::MAX,
    ensures
        description_msg(p, g1, service_naming) == description_msg(p, g2, service_naming),
{
    lemma_describe_reordered(p, g1, g2, sigma, tau, service_naming, seq![]);
    assert(moved(seq![], sigma) =~= Seq::<usize>::empty());
}

} // verus!
