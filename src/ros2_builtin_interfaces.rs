//! Messages so fundamental to ROS 2 that they ship with this crate: the time and
//! duration types, and the metadata of service events, which service hashes need.
use vstd::prelude::*;

use crate::msg::{message_matches, parse_ros_message_file, spec_lines, spec_parse_body};
use crate::resolve::{first_missing, graph_view, resolved_against};
use crate::ros2_hashing::description_msg;
use crate::types::{Error, MessageFile, Package, ParsedMessageView, RosVersion};

verus! {

/// Text of `service_msgs/ServiceEventInfo`.
pub const SERVICE_EVENT_INFO: &'static str = "
uint8 REQUEST_SENT = 0
uint8 REQUEST_RECEIVED = 1
uint8 RESPONSE_SENT = 2
uint8 RESPONSE_RECEIVED = 3

# The type of event this message represents
uint8 event_type

# Timestamp for when the event occurred (sent or received time)
builtin_interfaces/Time stamp

# Unique identifier for the client that sent the service request
# Note, this is only unique for the current session.
# The size here has to match the size of rmw_dds_common/msg/Gid,
# but unfortunately we cannot use that message directly due to a
# circular dependency.
char[16] client_gid

# Sequence number for the request
# Combined with the client ID, this creates a unique ID for the service transaction
int64 sequence_number
";

/// Text of `builtin_interfaces/Time`, byte for byte as ROS 2 ships it: one
/// comment line ends in a space.
pub const TIME_MSG: &'static str = "
# This message communicates ROS Time defined here:
# https://design.ros2.org/articles/clock_and_time.html

# The seconds component, valid over all int32 values.
int32 sec

# The nanoseconds component, valid in the range [0, 1e9), to be added to the seconds component. 
# e.g.
# The time -1.7 seconds is represented as {sec: -2, nanosec: 3e8}
# The time 1.7 seconds is represented as {sec: 1, nanosec: 7e8}
uint32 nanosec
";

/// Text of `builtin_interfaces/Duration`, byte for byte as ROS 2 ships it: one
/// comment line ends in a space.
pub const DURATION_MSG: &'static str = "
# Duration defines a period between two time points.
# Messages of this datatype are of ROS Time following this design:
# https://design.ros2.org/articles/clock_and_time.html

# The seconds component, valid over all int32 values.
int32 sec

# The nanoseconds component, valid in the range [0, 1e9), to be added to the seconds component. 
# e.g.
# The duration -1.7 seconds is represented as {sec: -2, nanosec: 3e8}
# The duration 1.7 seconds is represented as {sec: 1, nanosec: 7e8}
uint32 nanosec
";

fn builtin_package(name: &str) -> (r: Package)
    ensures
        r.name@ == name@,
        r.path@ == "/tmp"@,
        r.version == Some(RosVersion::ROS2),
{
    Package {
        name: name.to_owned(),
        path: String::from_str("/tmp"),
        version: Some(RosVersion::ROS2),
    }
}

/// The message that `text` defines as `name` in the ROS 2 package `pkg`, if it
/// parses.
pub open spec fn parsed_builtin(text: Seq<char>, name: Seq<char>, pkg: Seq<char>, path: Seq<char>) -> Option<
    ParsedMessageView,
> {
    match spec_parse_body(spec_lines(text), pkg, Some(RosVersion::ROS2)) {
        Ok((fields, constants)) => Some(
            ParsedMessageView {
                name,
                package: pkg,
                fields,
                constants,
                version: Some(RosVersion::ROS2),
                source: text,
                path,
                service_part: false,
            },
        ),
        Err(_) => None,
    }
}

/// Whether `p` resolves against the messages `g`.
pub open spec fn resolvable(p: ParsedMessageView, g: Seq<ParsedMessageView>) -> bool {
    first_missing(g, p) is None && description_msg(p, g, false) is Ok
}

pub open spec fn time_view() -> Option<ParsedMessageView> {
    parsed_builtin(TIME_MSG@, "Time"@, "builtin_interfaces"@, "/tmp/msg/Time.msg"@)
}

pub open spec fn duration_view() -> Option<ParsedMessageView> {
    parsed_builtin(DURATION_MSG@, "Duration"@, "builtin_interfaces"@, "/tmp/msg/Duration.msg"@)
}

pub open spec fn event_info_view() -> Option<ParsedMessageView> {
    parsed_builtin(
        SERVICE_EVENT_INFO@,
        "ServiceEventInfo"@,
        "service_msgs"@,
        "/tmp/msg/ServiceEventInfo.msg"@,
    )
}

/// Whether the three built-in messages parse and each resolves against those
/// before it.
pub open spec fn builtins_resolve() -> bool {
    &&& time_view() is Some
    &&& duration_view() is Some
    &&& event_info_view() is Some
    &&& resolvable(time_view()->0, seq![])
    &&& resolvable(duration_view()->0, seq![time_view()->0])
    &&& resolvable(event_info_view()->0, seq![time_view()->0, duration_view()->0])
}

/// The built-in types, each parsed and resolved against those before it:
/// `builtin_interfaces/Time`, `builtin_interfaces/Duration` and
/// `service_msgs/ServiceEventInfo`, in that order.
pub fn get_builtin_interfaces() -> (r: Result<Vec<MessageFile>, Error>)
    ensures
        r is Ok <==> builtins_resolve(),
        r matches Ok(g) ==> {
            &&& g@.len() == 3
            &&& resolved_against(g@[0], time_view()->0, g@.take(0))
            &&& resolved_against(g@[1], duration_view()->0, g@.take(1))
            &&& resolved_against(g@[2], event_info_view()->0, g@.take(2))
        },
{
    let mut map: Vec<MessageFile> = Vec::new();
    let builtin = builtin_package("builtin_interfaces");
    assert(graph_view(map@) =~= Seq::<ParsedMessageView>::empty());
    let time = load(TIME_MSG, "Time", &builtin, "/tmp/msg/Time.msg", &map)?;
    map.push(time);
    assert(graph_view(map@) =~= seq![time_view()->0]);
    let duration = load(DURATION_MSG, "Duration", &builtin, "/tmp/msg/Duration.msg", &map)?;
    let ghost one = map@;
    map.push(duration);
    assert(graph_view(map@) =~= seq![time_view()->0, duration_view()->0]);
    let services = builtin_package("service_msgs");
    let ghost two = map@;
    let info = load(
        SERVICE_EVENT_INFO,
        "ServiceEventInfo",
        &services,
        "/tmp/msg/ServiceEventInfo.msg",
        &map,
    )?;
    map.push(info);
    assert(map@.take(0) =~= Seq::<MessageFile>::empty());
    assert(map@.take(1) =~= one);
    assert(map@.take(2) =~= two);
    Ok(map)
}

fn load(text: &str, name: &str, pkg: &Package, path: &str, graph: &Vec<MessageFile>) -> (r: Result<
    MessageFile,
    Error,
>)
    requires
        pkg.version == Some(RosVersion::ROS2),
    ensures
        match parsed_builtin(text@, name@, pkg.name@, path@) {
            None => r is Err,
            Some(p) => {
                &&& (r is Ok <==> resolvable(p, graph_view(graph@)))
                &&& (r matches Ok(m) ==> resolved_against(m, p, graph@))
            },
        },
{
    let parsed = parse_ros_message_file(text, name, pkg, path)?;
    assert(graph_view(graph@) =~= crate::ros2_hashing::nodes(seq![], graph@));
    MessageFile::resolve(parsed, graph)
}

} // verus!
