use vstd::prelude::*;

verus! {

/// The protocol generation a package is written for.
#[derive(Clone, Copy, Debug, PartialEq, Eq, Structural)]
pub enum RosVersion {
    ROS1,
    ROS2,
}

/// A package of definition files, identified by its name.
#[derive(Clone, Debug)]
pub struct Package {
    pub name: String,
    pub path: String,
    pub version: Option<RosVersion>,
}

/// How many elements a field holds.
#[derive(Clone, Copy, Debug, PartialEq, Eq, Structural)]
pub enum ArrayType {
    NotArray,
    FixedLength(usize),
    Bounded(usize),
    Unbounded,
}

/// A field's type as written in a definition file, with its package resolved.
///
/// `package_name` is `None` for an intrinsic type and names the package that
/// defines the type otherwise.
#[derive(Clone, Debug, PartialEq, Eq)]
pub struct FieldType {
    pub package_name: Option<String>,
    pub source_package: String,
    pub field_type: String,
    pub array_info: ArrayType,
    pub string_capacity: Option<usize>,
}

/// The mathematical value of a [`FieldType`].
pub struct FieldTypeView {
    pub package_name: Option<Seq<char>>,
    pub source_package: Seq<char>,
    pub field_type: Seq<char>,
    pub array_info: ArrayType,
    pub string_capacity: Option<usize>,
}

pub open spec fn opt_view(o: Option<String>) -> Option<Seq<char>> {
    match o {
        Some(s) => Some(s@),
        None => None,
    }
}

impl View for FieldType {
    type V = FieldTypeView;

    open spec fn view(&self) -> FieldTypeView {
        FieldTypeView {
            package_name: opt_view(self.package_name),
            source_package: self.source_package@,
            field_type: self.field_type@,
            array_info: self.array_info,
            string_capacity: self.string_capacity,
        }
    }
}

/// One field of a message: its type, name and, for ROS 2, its default value text.
#[derive(Clone, Debug, PartialEq, Eq)]
pub struct FieldInfo {
    pub field_type: FieldType,
    pub field_name: String,
    pub default: Option<String>,
}

/// The mathematical value of a [`FieldInfo`].
pub struct FieldInfoView {
    pub field_type: FieldTypeView,
    pub field_name: Seq<char>,
    pub default: Option<Seq<char>>,
}

impl View for FieldInfo {
    type V = FieldInfoView;

    open spec fn view(&self) -> FieldInfoView {
        FieldInfoView {
            field_type: self.field_type@,
            field_name: self.field_name@,
            default: opt_view(self.default),
        }
    }
}

/// One constant of a message.
#[derive(Clone, Debug, PartialEq, Eq)]
pub struct ConstantInfo {
    pub constant_type: String,
    pub constant_name: String,
    pub constant_value: String,
}

/// The mathematical value of a [`ConstantInfo`].
pub struct ConstantInfoView {
    pub constant_type: Seq<char>,
    pub constant_name: Seq<char>,
    pub constant_value: Seq<char>,
}

impl View for ConstantInfo {
    type V = ConstantInfoView;

    open spec fn view(&self) -> ConstantInfoView {
        ConstantInfoView {
            constant_type: self.constant_type@,
            constant_name: self.constant_name@,
            constant_value: self.constant_value@,
        }
    }
}

pub open spec fn fields_view(v: Seq<FieldInfo>) -> Seq<FieldInfoView> {
    v.map_values(|f: FieldInfo| f@)
}

pub open spec fn constants_view(v: Seq<ConstantInfo>) -> Seq<ConstantInfoView> {
    v.map_values(|c: ConstantInfo| c@)
}

/// A message definition after parsing, before its references are checked.
#[derive(Clone, Debug)]
pub struct ParsedMessageFile {
    pub name: String,
    pub package: String,
    pub fields: Vec<FieldInfo>,
    pub constants: Vec<ConstantInfo>,
    pub version: Option<RosVersion>,
    pub source: String,
    pub path: String,
    /// Whether the message is a part of a service (its request, response or
    /// event, or the aggregate that a service hashes as), named under `srv/`.
    pub service_part: bool,
}

/// The mathematical value of a [`ParsedMessageFile`].
pub struct ParsedMessageView {
    pub name: Seq<char>,
    pub package: Seq<char>,
    pub fields: Seq<FieldInfoView>,
    pub constants: Seq<ConstantInfoView>,
    pub version: Option<RosVersion>,
    pub source: Seq<char>,
    pub path: Seq<char>,
    pub service_part: bool,
}

impl View for ParsedMessageFile {
    type V = ParsedMessageView;

    open spec fn view(&self) -> ParsedMessageView {
        ParsedMessageView {
            name: self.name@,
            package: self.package@,
            fields: fields_view(self.fields@),
            constants: constants_view(self.constants@),
            version: self.version,
            source: self.source@,
            path: self.path@,
            service_part: self.service_part,
        }
    }
}

/// A service definition: a request and a response message.
#[derive(Clone, Debug)]
pub struct ParsedServiceFile {
    pub name: String,
    pub package: String,
    pub request_type: ParsedMessageFile,
    pub response_type: ParsedMessageFile,
    pub source: String,
    pub path: String,
}

/// A 256-bit content hash of a ROS 2 type description.
#[derive(Clone, Copy, Debug, PartialEq, Eq, Default)]
pub struct Ros2Hash(pub [u8; 32]);

/// A message whose references were all found, with its derived data.
#[derive(Clone, Debug)]
pub struct MessageFile {
    pub parsed: ParsedMessageFile,
    pub ros2_hash: Ros2Hash,
    pub md5sum: String,
    pub definition: String,
    pub is_fixed_encoding_length: bool,
}

/// A service whose request and response were resolved, with its hashes.
#[derive(Clone, Debug)]
pub struct ServiceFile {
    pub parsed: ParsedServiceFile,
    pub request: MessageFile,
    pub response: MessageFile,
    pub md5sum: String,
    pub ros2_hash: Ros2Hash,
}

/// The kinds of failure, without their context.
#[derive(Clone, Copy, Debug, PartialEq, Eq, Structural)]
pub enum ErrorKind {
    Parse,
    Resolution,
    MissingType,
    CyclicType,
    UnknownFieldType,
    CapacityTooLarge,
}

/// A failure of parsing, resolution or hashing, with the text that caused it.
#[derive(Clone, Debug, PartialEq, Eq)]
pub enum Error {
    /// A line of a definition file that does not follow the grammar.
    Parse { line: String, context: String },
    /// A type token that names no type in a well-formed way.
    Resolution { token: String, package: String },
    /// A referenced type that is not among the known types.
    MissingType { referrer: String, missing: String },
    /// A type that contains itself, directly or through other types.
    CyclicType { referrer: String, target: String },
    /// A field whose type has no numeric type tag.
    UnknownFieldType { field: String, symbolic_name: String },
    /// A field whose array bound or string capacity exceeds the 32 bits that a
    /// type description holds.
    CapacityTooLarge { field: String },
}

/// The mathematical value of an [`Error`].
pub enum ErrorView {
    Parse { line: Seq<char>, context: Seq<char> },
    Resolution { token: Seq<char>, package: Seq<char> },
    MissingType { referrer: Seq<char>, missing: Seq<char> },
    CyclicType { referrer: Seq<char>, target: Seq<char> },
    UnknownFieldType { field: Seq<char>, symbolic_name: Seq<char> },
    CapacityTooLarge { field: Seq<char> },
}

impl ErrorView {
    pub open spec fn kind(self) -> ErrorKind {
        match self {
            ErrorView::Parse { .. } => ErrorKind::Parse,
            ErrorView::Resolution { .. } => ErrorKind::Resolution,
            ErrorView::MissingType { .. } => ErrorKind::MissingType,
            ErrorView::CyclicType { .. } => ErrorKind::CyclicType,
            ErrorView::UnknownFieldType { .. } => ErrorKind::UnknownFieldType,
            ErrorView::CapacityTooLarge { .. } => ErrorKind::CapacityTooLarge,
        }
    }
}

impl View for Error {
    type V = ErrorView;

    open spec fn view(&self) -> ErrorView {
        match self {
            Error::Parse { line, context } => ErrorView::Parse { line: line@, context: context@ },
            Error::Resolution { token, package } => ErrorView::Resolution {
                token: token@,
                package: package@,
            },
            Error::MissingType { referrer, missing } => ErrorView::MissingType {
                referrer: referrer@,
                missing: missing@,
            },
            Error::CyclicType { referrer, target } => ErrorView::CyclicType {
                referrer: referrer@,
                target: target@,
            },
            Error::UnknownFieldType { field, symbolic_name } => ErrorView::UnknownFieldType {
                field: field@,
                symbolic_name: symbolic_name@,
            },
            Error::CapacityTooLarge { field } => ErrorView::CapacityTooLarge { field: field@ },
        }
    }
}

impl Error {
    pub open spec fn spec_kind(&self) -> ErrorKind {
        match self {
            Error::Parse { .. } => ErrorKind::Parse,
            Error::Resolution { .. } => ErrorKind::Resolution,
            Error::MissingType { .. } => ErrorKind::MissingType,
            Error::CyclicType { .. } => ErrorKind::CyclicType,
            Error::UnknownFieldType { .. } => ErrorKind::UnknownFieldType,
            Error::CapacityTooLarge { .. } => ErrorKind::CapacityTooLarge,
        }
    }

    /// The kind of this failure.
    #[verifier::when_used_as_spec(spec_kind)]
    pub fn kind(&self) -> (r: ErrorKind)
        ensures
            r == self.spec_kind(),
    {
        match self {
            Error::Parse { .. } => ErrorKind::Parse,
            Error::Resolution { .. } => ErrorKind::Resolution,
            Error::MissingType { .. } => ErrorKind::MissingType,
            Error::CyclicType { .. } => ErrorKind::CyclicType,
            Error::UnknownFieldType { .. } => ErrorKind::UnknownFieldType,
            Error::CapacityTooLarge { .. } => ErrorKind::CapacityTooLarge,
        }
    }
}

} // verus!
