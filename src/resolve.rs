//! Resolution of parsed messages against the known types: the legacy definition
//! text, its digest, and the checks on references.
use vstd::prelude::*;

use crate::digest::{hex_of, md5_digest, md5_of, to_hex};
use crate::ros2_hashing::{
    calculate_ros2_hash, calculate_ros2_srv_hash, description_msg, full_name, full_type_name,
    nodes, ros2_hash_of, service_aggregate, service_parts,
};
use crate::text::{lemma_last_index, str_eq};
use crate::types::{
    ErrorView, Error, FieldInfoView, MessageFile, ParsedMessageFile, ParsedMessageView,
    ParsedServiceFile, ServiceFile,
};
use crate::ros2_builtin_interfaces::{
    builtins_resolve, duration_view, event_info_view, resolvable, time_view,
};
use vstd::utf8::encode_utf8;

verus! {

/// The messages of a graph.
pub open spec fn graph_view(graph: Seq<MessageFile>) -> Seq<ParsedMessageView> {
    graph.map_values(|m: MessageFile| m.parsed@)
}

/// The position in `g` of the type that a non-intrinsic field refers to.
pub open spec fn lookup(g: Seq<ParsedMessageView>, f: FieldInfoView) -> Option<int> {
    g.map_values(|m: ParsedMessageView| full_name(m)).index_of_last(full_type_name(f.field_type))
}

/// The types that the first `i` fields of `p` refer to, directly or through
/// other types, appended to `visited` in the order a depth-first walk meets them
/// first; `fuel` bounds the depth of the walk.
pub open spec fn walk(
    g: Seq<ParsedMessageView>,
    p: ParsedMessageView,
    i: int,
    visited: Seq<usize>,
    fuel: nat,
) -> Seq<usize>
    decreases fuel, i,
{
    if i <= 0 || i > p.fields.len() {
        visited
    } else {
        let v = walk(g, p, i - 1, visited, fuel);
        let f = p.fields[i - 1];
        if f.field_type.package_name is None {
            v
        } else {
            match lookup(g, f) {
                None => v,
                Some(k) => if v.contains(k as usize) || fuel == 0 {
                    v
                } else {
                    walk(g, g[k], g[k].fields.len() as int, v.push(k as usize), (fuel - 1) as nat)
                },
            }
        }
    }
}

/// The nested types of `p` in the order of the legacy definition text.
pub open spec fn dependencies(g: Seq<ParsedMessageView>, p: ParsedMessageView) -> Seq<usize> {
    walk(g, p, p.fields.len() as int, seq![], g.len())
}

/// The line that separates the definitions in a legacy definition text.
pub open spec fn separator() -> Seq<char> {
    "================================================================================"@
}

/// The definitions of the types at `order` in `g`, each introduced by a separator
/// line and its full name.
pub open spec fn sections(g: Seq<ParsedMessageView>, order: Seq<usize>) -> Seq<char>
    decreases order.len(),
{
    if order.len() == 0 {
        seq![]
    } else {
        let m = g[order.last() as int];
        sections(g, order.drop_last()) + "\n"@ + separator() + "\nMSG: "@ + full_name(m) + "\n"@
            + m.source
    }
}

/// The legacy definition text of `p`: its own text followed by that of each
/// distinct nested type.
pub open spec fn legacy_definition(g: Seq<ParsedMessageView>, p: ParsedMessageView) -> Seq<char> {
    p.source + sections(g, dependencies(g, p))
}

/// Whether a field has a fixed size: a scalar that is not a string.
pub open spec fn fixed_size_field(f: FieldInfoView) -> bool {
    f.field_type.array_info == crate::types::ArrayType::NotArray && f.field_type.field_type
        != "string"@ && f.field_type.field_type != "wstring"@
}

pub open spec fn all_fixed(fields: Seq<FieldInfoView>) -> bool {
    forall|i: int| 0 <= i < fields.len() ==> fixed_size_field(#[trigger] fields[i])
}

/// Whether `p` and every type it refers to have only fixed-size fields.
pub open spec fn fixed_encoding(g: Seq<ParsedMessageView>, p: ParsedMessageView) -> bool {
    all_fixed(p.fields) && forall|j: int|
        0 <= j < dependencies(g, p).len() ==> all_fixed(
            #[trigger] g[dependencies(g, p)[j] as int].fields,
        )
}

/// The first field of `p` whose type is not among `g`.
pub open spec fn first_missing(g: Seq<ParsedMessageView>, p: ParsedMessageView) -> Option<int> {
    if exists|i: int|
        0 <= i < p.fields.len() && (#[trigger] p.fields[i]).field_type.package_name is Some
            && lookup(g, p.fields[i]) is None {
        Some(
            choose|i: int|
                0 <= i < p.fields.len() && (#[trigger] p.fields[i]).field_type.package_name is Some
                    && lookup(g, p.fields[i]) is None && forall|j: int|
                    0 <= j < i && (#[trigger] p.fields[j]).field_type.package_name is Some
                        ==> lookup(g, p.fields[j]) is Some,
        )
    } else {
        None
    }
}

/// Whether `mf` is the message `p` resolved against `graph`: its references are
/// all there, and its derived data is computed from them.
pub open spec fn resolved_against(mf: MessageFile, p: ParsedMessageView, graph: Seq<MessageFile>) -> bool {
    let g = graph_view(graph);
    &&& first_missing(g, p) is None
    &&& description_msg(p, nodes(seq![], graph), false) is Ok
    &&& mf.parsed@ == p
    &&& mf.definition@ == legacy_definition(g, p)
    &&& mf.md5sum@ == hex_of(md5_of(encode_utf8(mf.definition@)))
    &&& mf.is_fixed_encoding_length == fixed_encoding(g, p)
    &&& mf.ros2_hash.0@ == ros2_hash_of(description_msg(p, nodes(seq![], graph), false)->Ok_0)
}

fn find_in_graph(graph: &Vec<MessageFile>, name: &String) -> (r: Option<usize>)
    ensures
        graph_view(graph@).map_values(|m: ParsedMessageView| full_name(m)).index_of_last(name@)
            == match r {
            Some(k) => Some(k as int),
            None => None::<int>,
        },
        r matches Some(k) ==> k < graph@.len(),
{
    let ghost names = graph_view(graph@).map_values(|m: ParsedMessageView| full_name(m));
    let mut j: usize = graph.len();
    while j > 0
        invariant
            j <= graph@.len(),
            names == graph_view(graph@).map_values(|m: ParsedMessageView| full_name(m)),
            forall|x: int| j <= x < names.len() ==> names[x] != name@,
        decreases j,
    {
        j = j - 1;
        let candidate = graph[j].parsed.package.clone().concat("/").concat(
            graph[j].parsed.name.as_str(),
        );
        if candidate == *name {
            proof {
                lemma_last_index(names, name@, Some(j));
            }
            return Some(j);
        }
    }
    proof {
        lemma_last_index(names, name@, None);
    }
    None
}

fn contains_index(v: &Vec<usize>, k: usize) -> (r: bool)
    ensures
        r == v@.contains(k),
{
    let mut i: usize = 0;
    while i < v.len()
        invariant
            i <= v@.len(),
            forall|j: int| 0 <= j < i ==> v@[j] != k,
        decreases v.len() - i,
    {
        if v[i] == k {
            return true;
        }
        i = i + 1;
    }
    false
}

fn walk_exec(p: &ParsedMessageFile, graph: &Vec<MessageFile>, visited: &mut Vec<usize>, fuel: usize)
    ensures
        final(visited)@ == walk(
            graph_view(graph@),
            p@,
            p.fields@.len() as int,
            old(visited)@,
            fuel as nat,
        ),
    decreases fuel,
{
    let ghost g = graph_view(graph@);
    let ghost start = visited@;
    let mut i: usize = 0;
    while i < p.fields.len()
        invariant
            i <= p.fields@.len(),
            g == graph_view(graph@),
            visited@ == walk(g, p@, i as int, start, fuel as nat),
        decreases p.fields.len() - i,
    {
        let f = &p.fields[i];
        assert(p@.fields[i as int] == f@);
        match &f.field_type.package_name {
            None => {},
            Some(pkg) => {
                let name = pkg.clone().concat("/").concat(f.field_type.field_type.as_str());
                match find_in_graph(graph, &name) {
                    None => {},
                    Some(k) => {
                        if !contains_index(visited, k) && fuel > 0 {
                            visited.push(k);
                            walk_exec(&graph[k].parsed, graph, visited, fuel - 1);
                        }
                    },
                }
            },
        }
        i = i + 1;
    }
}

fn append_sections(out: &mut String, graph: &Vec<MessageFile>, order: &Vec<usize>)
    requires
        forall|j: int| 0 <= j < order@.len() ==> order@[j] < graph@.len(),
    ensures
        final(out)@ == old(out)@ + sections(graph_view(graph@), order@),
{
    let ghost g = graph_view(graph@);
    let ghost start = out@;
    let mut i: usize = 0;
    assert(order@.take(0) =~= Seq::<usize>::empty());
    assert(out@ =~= start + sections(g, order@.take(0)));
    while i < order.len()
        invariant
            i <= order@.len(),
            g == graph_view(graph@),
            forall|j: int| 0 <= j < order@.len() ==> order@[j] < graph@.len(),
            out@ == start + sections(g, order@.take(i as int)),
        decreases order.len() - i,
    {
        let m = &graph[order[i]].parsed;
        let ghost before = out@;
        out.append("\n");
        out.append("================================================================================");
        out.append("\nMSG: ");
        out.append(m.package.as_str());
        out.append("/");
        out.append(m.name.as_str());
        out.append("\n");
        out.append(m.source.as_str());
        proof {
            let next = order@.take(i + 1);
            assert(next.drop_last() =~= order@.take(i as int));
            assert(next.last() == order@[i as int]);
            assert(out@ =~= start + sections(g, next));
        }
        i = i + 1;
    }
    assert(order@.take(i as int) =~= order@);
}

proof fn lemma_walk_in_range(
    g: Seq<ParsedMessageView>,
    p: ParsedMessageView,
    i: int,
    visited: Seq<usize>,
    fuel: nat,
)
    requires
        g.len() <= usize::MAX,
        forall|j: int| 0 <= j < visited.len() ==> visited[j] < g.len(),
    ensures
        forall|j: int|
            0 <= j < walk(g, p, i, visited, fuel).len() ==> walk(g, p, i, visited, fuel)[j]
                < g.len(),
    decreases fuel, i,
{
    if i <= 0 || i > p.fields.len() {
    } else {
        lemma_walk_in_range(g, p, i - 1, visited, fuel);
        let v = walk(g, p, i - 1, visited, fuel);
        let f = p.fields[i - 1];
        let r = walk(g, p, i, visited, fuel);
        if f.field_type.package_name is None {
            assert(r == v);
        } else {
            match lookup(g, f) {
                None => {
                    assert(r == v);
                },
                Some(k) => {
                    g.map_values(|m: ParsedMessageView| full_name(m)).index_of_last_ensures(
                        full_type_name(f.field_type),
                    );
                    assert(0 <= k < g.len());
                    if v.contains(k as usize) || fuel == 0 {
                        assert(r == v);
                    } else {
                        let w = v.push(k as usize);
                        assert(forall|j: int| 0 <= j < w.len() ==> w[j] < g.len());
                        lemma_walk_in_range(g, g[k], g[k].fields.len() as int, w, (fuel - 1) as nat);
                        assert(r == walk(g, g[k], g[k].fields.len() as int, w, (fuel - 1) as nat));
                    }
                },
            }
        }
    }
}

fn fields_fixed(p: &ParsedMessageFile) -> (r: bool)
    ensures
        r == all_fixed(p@.fields),
{
    let mut i: usize = 0;
    while i < p.fields.len()
        invariant
            i <= p.fields@.len(),
            forall|j: int| 0 <= j < i ==> fixed_size_field(#[trigger] p@.fields[j]),
        decreases p.fields.len() - i,
    {
        let ft = &p.fields[i].field_type;
        assert(p@.fields[i as int].field_type == ft@);
        let fixed = match ft.array_info {
            crate::types::ArrayType::NotArray => true,
            _ => false,
        } && !str_eq(ft.field_type.as_str(), "string") && !str_eq(ft.field_type.as_str(), "wstring");
        if !fixed {
            return false;
        }
        i = i + 1;
    }
    true
}

impl MessageFile {
    /// Checks that every type `parsed` refers to is in `graph` and derives the
    /// legacy definition text, its digest, the fixed-size flag and the ROS 2 hash.
    pub fn resolve(parsed: ParsedMessageFile, graph: &Vec<MessageFile>) -> (r: Result<
        MessageFile,
        Error,
    >)
        ensures
            match first_missing(graph_view(graph@), parsed@) {
                Some(i) => r matches Err(e) && e@ == (ErrorView::MissingType {
                    referrer: full_name(parsed@),
                    missing: full_type_name(parsed@.fields[i].field_type),
                }),
                None => match description_msg(parsed@, nodes(seq![], graph@), false) {
                    Err(k) => r matches Err(e) && e@ == k,
                    Ok(_) => r matches Ok(mf) && resolved_against(mf, parsed@, graph@),
                },
            },
    {
        let ghost g = graph_view(graph@);
        let mut i: usize = 0;
        while i < parsed.fields.len()
            invariant
                i <= parsed.fields@.len(),
                g == graph_view(graph@),
                forall|j: int|
                    0 <= j < i && (#[trigger] parsed@.fields[j]).field_type.package_name is Some
                        ==> lookup(g, parsed@.fields[j]) is Some,
            decreases parsed.fields.len() - i,
        {
            let f = &parsed.fields[i];
            assert(parsed@.fields[i as int] == f@);
            match &f.field_type.package_name {
                None => {},
                Some(pkg) => {
                    let name = pkg.clone().concat("/").concat(f.field_type.field_type.as_str());
                    if find_in_graph(graph, &name).is_none() {
                        proof {
                            assert(name@ == full_type_name(parsed@.fields[i as int].field_type));
                            assert(lookup(g, parsed@.fields[i as int]) is None);
                            let k = first_missing(g, parsed@)->0;
                            assert(!(k < i));
                            assert(!(i < k));
                        }
                        return Err(
                            Error::MissingType {
                                referrer: parsed.package.clone().concat("/").concat(
                                    parsed.name.as_str(),
                                ),
                                missing: name,
                            },
                        );
                    }
                },
            }
            i = i + 1;
        }
        proof {
            if first_missing(g, parsed@) is Some {
                let j = first_missing(g, parsed@)->0;
                assert(parsed@.fields[j].field_type.package_name is Some);
            }
        }
        let hash = calculate_ros2_hash(&parsed, graph)?;
        let mut order: Vec<usize> = Vec::new();
        walk_exec(&parsed, graph, &mut order, graph.len());
        proof {
            assert(order@ == dependencies(g, parsed@));
            lemma_walk_in_range(g, parsed@, parsed@.fields.len() as int, seq![], g.len());
        }
        let mut definition = parsed.source.clone();
        append_sections(&mut definition, graph, &order);
        let digest = md5_digest(definition.as_str().as_bytes());
        let md5sum = to_hex(&digest);
        let mut fixed = fields_fixed(&parsed);
        let mut j: usize = 0;
        while j < order.len()
            invariant
                j <= order@.len(),
                g == graph_view(graph@),
                order@ == dependencies(g, parsed@),
                forall|x: int| 0 <= x < order@.len() ==> order@[x] < graph@.len(),
                fixed == (all_fixed(parsed@.fields) && forall|x: int|
                    0 <= x < j ==> all_fixed(#[trigger] g[order@[x] as int].fields)),
            decreases order.len() - j,
        {
            let dep_fixed = fields_fixed(&graph[order[j]].parsed);
            assert(g[order@[j as int] as int] == graph@[order@[j as int] as int].parsed@);
            fixed = fixed && dep_fixed;
            j = j + 1;
        }
        Ok(
            MessageFile {
                parsed,
                ros2_hash: hash,
                md5sum,
                definition,
                is_fixed_encoding_length: fixed,
            },
        )
    }
}

/// Whether every type that `m` refers to is in `graph`.
pub fn references_present(m: &ParsedMessageFile, graph: &Vec<MessageFile>) -> (r: bool)
    ensures
        r == (first_missing(graph_view(graph@), m@) is None),
{
    let ghost g = graph_view(graph@);
    let mut i: usize = 0;
    while i < m.fields.len()
        invariant
            i <= m.fields@.len(),
            g == graph_view(graph@),
            forall|j: int|
                0 <= j < i && (#[trigger] m@.fields[j]).field_type.package_name is Some
                    ==> lookup(g, m@.fields[j]) is Some,
        decreases m.fields.len() - i,
    {
        let f = &m.fields[i];
        assert(m@.fields[i as int] == f@);
        match &f.field_type.package_name {
            None => {},
            Some(pkg) => {
                let name = pkg.clone().concat("/").concat(f.field_type.field_type.as_str());
                if find_in_graph(graph, &name).is_none() {
                    assert(lookup(g, m@.fields[i as int]) is None);
                    return false;
                }
            },
        }
        i = i + 1;
    }
    proof {
        if first_missing(g, m@) is Some {
            let j = first_missing(g, m@)->0;
            assert(m@.fields[j].field_type.package_name is Some);
        }
    }
    true
}

/// The messages of `ms`, as values.
pub open spec fn messages_view(ms: Seq<ParsedMessageFile>) -> Seq<ParsedMessageView> {
    ms.map_values(|m: ParsedMessageFile| m@)
}

/// The built-in messages that every graph starts with.
pub open spec fn builtin_views() -> Seq<ParsedMessageView> {
    seq![time_view()->0, duration_view()->0, event_info_view()->0]
}

/// Whether each of `ms` resolves against `base` and the messages before it.
pub open spec fn resolvable_in_order(base: Seq<ParsedMessageView>, ms: Seq<ParsedMessageView>) -> bool {
    forall|i: int| 0 <= i < ms.len() ==> resolvable(#[trigger] ms[i], base + ms.take(i))
}

/// Whether each entry of `graph` after the first `base` is resolved against the
/// entries before it.
pub open spec fn resolved_in_order(graph: Seq<MessageFile>, base: int) -> bool {
    forall|j: int|
        base <= j < graph.len() ==> resolved_against(
            #[trigger] graph[j],
            graph[j].parsed@,
            graph.take(j),
        )
}

/// Whether `m` is one of `messages`.
pub open spec fn one_of(m: ParsedMessageView, messages: Seq<ParsedMessageFile>) -> bool {
    exists|i: int| 0 <= i < messages.len() && messages[i]@ == m
}

/// Whether each entry of `graph` after the first `base` is one of `messages`.
pub open spec fn drawn_from(graph: Seq<MessageFile>, base: int, messages: Seq<ParsedMessageFile>) -> bool {
    forall|j: int| base <= j < graph.len() ==> one_of(#[trigger] graph[j].parsed@, messages)
}

pub open spec fn all_one_of(v: Seq<ParsedMessageFile>, messages: Seq<ParsedMessageFile>) -> bool {
    forall|x: int| 0 <= x < v.len() ==> one_of(#[trigger] v[x]@, messages)
}

/// Adds `m` to `graph` when every type it refers to is there, and to `next`
/// otherwise.
fn place(
    graph: &mut Vec<MessageFile>,
    next: &mut Vec<ParsedMessageFile>,
    m: ParsedMessageFile,
    all: Ghost<Seq<ParsedMessageFile>>,
) -> (r: Result<(), Error>)
    requires
        old(graph)@.len() >= 3,
        resolved_in_order(old(graph)@, 3),
        drawn_from(old(graph)@, 3, all@),
        all_one_of(old(next)@, all@),
        one_of(m@, all@),
    ensures
        r is Ok ==> {
            &&& final(graph)@.len() + final(next)@.len() == old(graph)@.len() + old(next)@.len() + 1
            &&& final(graph)@.len() >= 3
            &&& final(next)@.len() <= old(next)@.len() + 1
            &&& resolved_in_order(final(graph)@, 3)
            &&& drawn_from(final(graph)@, 3, all@)
            &&& all_one_of(final(next)@, all@)
        },
        resolvable(m@, graph_view(old(graph)@)) ==> {
            &&& r is Ok
            &&& final(next)@ == old(next)@
            &&& graph_view(final(graph)@) == graph_view(old(graph)@).push(m@)
        },
{
    let ghost mv = m@;
    if references_present(&m, graph) {
        let ghost old_graph = graph@;
        assert(nodes(seq![], graph@) =~= graph_view(graph@));
        let resolved = MessageFile::resolve(m, graph)?;
        graph.push(resolved);
        proof {
            assert(graph_view(graph@) =~= graph_view(old_graph).push(mv));
            assert(graph@.take(old_graph.len() as int) =~= old_graph);
            assert forall|j: int| 3 <= j < graph@.len() implies resolved_against(
                #[trigger] graph@[j],
                graph@[j].parsed@,
                graph@.take(j),
            ) by {
                if j < old_graph.len() {
                    assert(graph@.take(j) =~= old_graph.take(j));
                    assert(graph@[j] == old_graph[j]);
                }
            }
            assert forall|j: int| 3 <= j < graph@.len() implies one_of(
                #[trigger] graph@[j].parsed@,
                all@,
            ) by {
                if j < old_graph.len() {
                    assert(graph@[j] == old_graph[j]);
                }
            }
        }
    } else {
        let ghost old_next = next@;
        next.push(m);
        assert forall|x: int| 0 <= x < next@.len() implies one_of(#[trigger] next@[x]@, all@) by {
            if x < old_next.len() {
                assert(next@[x] == old_next[x]);
                assert(one_of(old_next[x]@, all@));
            }
        }
    }
    Ok(())
}

/// Resolves `messages` against the built-in types and each other: each message is
/// added once every type it refers to is known. Fails when no message of those
/// left can be added. Succeeds when the built-in types resolve and each message
/// resolves against them and the messages before it.
#[verifier::rlimit(100)]
pub fn resolve_messages(messages: Vec<ParsedMessageFile>) -> (r: Result<Vec<MessageFile>, Error>)
    ensures
        r matches Ok(g) ==> {
            &&& g@.len() == 3 + messages@.len()
            &&& resolved_in_order(g@, 3)
            &&& drawn_from(g@, 3, messages@)
        },
        builtins_resolve() && resolvable_in_order(builtin_views(), messages_view(messages@))
            ==> (r matches Ok(g) && graph_view(g@) == builtin_views() + messages_view(messages@)),
{
    let ghost in_order = builtins_resolve() && resolvable_in_order(
        builtin_views(),
        messages_view(messages@),
    );
    let mut graph = crate::ros2_builtin_interfaces::get_builtin_interfaces()?;
    assert(graph_view(graph@) =~= builtin_views()) by {
        if builtins_resolve() {
            assert(graph@[0].parsed@ == time_view()->0);
            assert(graph@[1].parsed@ == duration_view()->0);
            assert(graph@[2].parsed@ == event_info_view()->0);
        }
    }
    let ghost all = messages@;
    let mut pending = messages;
    assert forall|x: int| 0 <= x < pending@.len() implies one_of(#[trigger] pending@[x]@, all) by {
        assert(pending@[x] == all[x]);
    }
    while pending.len() > 0
        invariant
            graph@.len() >= 3,
            graph@.len() - 3 + pending@.len() == all.len(),
            resolved_in_order(graph@, 3),
            drawn_from(graph@, 3, all),
            all_one_of(pending@, all),
            in_order == (builtins_resolve() && resolvable_in_order(
                builtin_views(),
                messages_view(all),
            )),
            in_order ==> pending@.len() == 0 || (pending@ == all && graph_view(graph@)
                == builtin_views()),
            in_order && pending@.len() == 0 ==> graph_view(graph@) == builtin_views()
                + messages_view(all),
            all == messages@,
        decreases pending.len(),
    {
        let mut next: Vec<ParsedMessageFile> = Vec::new();
        let before = pending.len();
        let mut seen: usize = 0;
        while pending.len() > 0
            invariant
                graph@.len() >= 3,
                seen + pending@.len() == before,
                graph@.len() - 3 + pending@.len() + next@.len() == all.len(),
                next@.len() <= seen,
                resolved_in_order(graph@, 3),
                drawn_from(graph@, 3, all),
                all_one_of(pending@, all),
                all_one_of(next@, all),
                in_order == (builtins_resolve() && resolvable_in_order(
                    builtin_views(),
                    messages_view(all),
                )),
                all == messages@,
                in_order ==> {
                    &&& before == all.len()
                    &&& next@.len() == 0
                    &&& pending@ == all.skip(seen as int)
                    &&& graph_view(graph@) == builtin_views() + messages_view(all).take(seen as int)
                },
            decreases pending.len(),
        {
            let ghost pend = pending@;
            let ghost gv = graph_view(graph@);
            let m = pending.remove(0);
            assert(m == pend[0]);
            assert(one_of(m@, all));
            assert(all_one_of(pending@, all)) by {
                assert forall|x: int| 0 <= x < pending@.len() implies one_of(
                    #[trigger] pending@[x]@,
                    all,
                ) by {
                    assert(pending@[x] == pend[x + 1]);
                }
            }
            proof {
                if in_order {
                    assert(pending@ =~= all.skip(seen + 1));
                    assert(m == all[seen as int]);
                    assert(messages_view(all)[seen as int] == m@);
                    assert(resolvable(m@, gv));
                }
            }
            place(&mut graph, &mut next, m, Ghost(all))?;
            proof {
                if in_order {
                    assert(messages_view(all).take(seen + 1) =~= messages_view(all).take(
                        seen as int,
                    ).push(messages_view(all)[seen as int]));
                    assert(graph_view(graph@) =~= builtin_views() + messages_view(all).take(
                        seen + 1,
                    ));
                }
            }
            seen = seen + 1;
        }
        if next.len() == before {
            proof {
                if in_order {
                    assert(before > 0);
                }
            }
            let first = &next[0];
            let referrer = first.package.clone().concat("/").concat(first.name.as_str());
            let missing = first_missing_name(first, &graph);
            if names_one_of(&missing, &next) {
                return Err(Error::CyclicType { referrer, target: missing });
            }
            return Err(Error::MissingType { referrer, missing });
        }
        proof {
            if in_order {
                assert(seen == all.len());
                assert(next@.len() == 0);
                assert(messages_view(all).take(seen as int) =~= messages_view(all));
            }
        }
        pending = next;
    }
    proof {
        if in_order && all.len() == 0 {
            assert(builtin_views() + messages_view(all) =~= builtin_views());
        }
    }
    Ok(graph)
}

/// Whether `name` is the full name of one of `messages`.
fn names_one_of(name: &String, messages: &Vec<ParsedMessageFile>) -> bool {
    let mut i: usize = 0;
    while i < messages.len()
        decreases messages.len() - i,
    {
        let m = &messages[i];
        if m.package.clone().concat("/").concat(m.name.as_str()) == *name {
            return true;
        }
        i = i + 1;
    }
    false
}

/// The name of the first type that `m` refers to and `graph` lacks; empty if none.
fn first_missing_name(m: &ParsedMessageFile, graph: &Vec<MessageFile>) -> String {
    let mut i: usize = 0;
    while i < m.fields.len()
        decreases m.fields.len() - i,
    {
        let f = &m.fields[i];
        match &f.field_type.package_name {
            None => {},
            Some(pkg) => {
                let name = pkg.clone().concat("/").concat(f.field_type.field_type.as_str());
                if find_in_graph(graph, &name).is_none() {
                    return name;
                }
            },
        }
        i = i + 1;
    }
    String::new()
}

/// Whether `sf` is the service `s` resolved against `graph`.
pub open spec fn service_resolved_against(sf: ServiceFile, s: ParsedServiceFile, graph: Seq<MessageFile>) -> bool {
    &&& sf.parsed == s
    &&& resolved_against(sf.request, s.request_type@, graph)
    &&& resolved_against(sf.response, s.response_type@, graph)
    &&& sf.md5sum@ == hex_of(md5_of(encode_utf8(sf.request.definition@ + sf.response.definition@)))
    &&& description_msg(service_aggregate(s), nodes(seq![], graph) + service_parts(s), true) is Ok
    &&& sf.ros2_hash.0@ == ros2_hash_of(
        description_msg(service_aggregate(s), nodes(seq![], graph) + service_parts(s), true)->Ok_0,
    )
}

/// Whether the service `s` resolves against the messages `g`: its request and
/// response resolve, and its aggregate can be described.
pub open spec fn service_resolvable(s: ParsedServiceFile, g: Seq<ParsedMessageView>) -> bool {
    &&& resolvable(s.request_type@, g)
    &&& resolvable(s.response_type@, g)
    &&& description_msg(service_aggregate(s), g + service_parts(s), true) is Ok
}

fn resolve_service(s: ParsedServiceFile, graph: &Vec<MessageFile>) -> (r: Result<ServiceFile, Error>)
    requires
        graph@.len() + 3 <= usize::MAX,
    ensures
        r matches Ok(sf) ==> service_resolved_against(sf, s, graph@),
        service_resolvable(s, graph_view(graph@)) ==> r is Ok,
{
    assert(nodes(seq![], graph@) =~= graph_view(graph@));
    let ros2_hash = calculate_ros2_srv_hash(&s, graph)?;
    let request = MessageFile::resolve(s.request_type.renamed(s.request_type.name.clone(), s.request_type.service_part), graph)?;
    let response = MessageFile::resolve(
        s.response_type.renamed(
            s.response_type.name.clone(),
            s.response_type.service_part,
        ),
        graph,
    )?;
    let text = request.definition.clone().concat(response.definition.as_str());
    let md5sum = to_hex(&md5_digest(text.as_str().as_bytes()));
    assert(s.request_type@ == (ParsedMessageView {
        name: s.request_type.name@,
        service_part: s.request_type.service_part,
        ..s.request_type@
    }));
    assert(s.response_type@ == (ParsedMessageView {
        name: s.response_type.name@,
        service_part: s.response_type.service_part,
        ..s.response_type@
    }));
    Ok(ServiceFile { parsed: s, request, response, md5sum, ros2_hash })
}

/// Resolves messages and services: the messages as [`resolve_messages`] does,
/// then each service against the resulting graph.
pub fn resolve_dependency_graph(
    messages: Vec<ParsedMessageFile>,
    services: Vec<ParsedServiceFile>,
) -> (r: Result<(Vec<MessageFile>, Vec<ServiceFile>), Error>)
    ensures
        r matches Ok((g, ss)) ==> {
            &&& g@.len() == 3 + messages@.len()
            &&& resolved_in_order(g@, 3)
            &&& drawn_from(g@, 3, messages@)
            &&& ss@.len() == services@.len()
            &&& forall|i: int|
                0 <= i < ss@.len() ==> service_resolved_against(
                    #[trigger] ss@[i],
                    services@[i],
                    g@,
                )
        },
        ({
            let g = builtin_views() + messages_view(messages@);
            &&& messages@.len() + 6 <= usize::MAX
            &&& builtins_resolve()
            &&& resolvable_in_order(builtin_views(), messages_view(messages@))
            &&& forall|i: int| 0 <= i < services@.len() ==> service_resolvable(#[trigger] services@[i], g)
        }) ==> r is Ok,
{
    let ghost g = builtin_views() + messages_view(messages@);
    let ghost hyp = messages@.len() + 6 <= usize::MAX && builtins_resolve() && resolvable_in_order(
        builtin_views(),
        messages_view(messages@),
    ) && forall|i: int| 0 <= i < services@.len() ==> service_resolvable(#[trigger] services@[i], g);
    let graph = resolve_messages(messages)?;
    if graph.len() > usize::MAX - 3 {
        return Err(
            Error::MissingType {
                referrer: String::from_str("graph"),
                missing: String::from_str("room for the parts of a service"),
            },
        );
    }
    let ghost all = services@;
    let mut rest = services;
    let mut done: Vec<ServiceFile> = Vec::new();
    while rest.len() > 0
        invariant
            graph@.len() + 3 <= usize::MAX,
            hyp ==> graph_view(graph@) == g,
            hyp == (messages@.len() + 6 <= usize::MAX && builtins_resolve() && resolvable_in_order(
                builtin_views(),
                messages_view(messages@),
            ) && forall|i: int| 0 <= i < all.len() ==> service_resolvable(#[trigger] all[i], g)),
            g == builtin_views() + messages_view(messages@),
            all == services@,
            done@.len() + rest@.len() == all.len(),
            rest@ == all.skip(done@.len() as int),
            forall|i: int|
                0 <= i < done@.len() ==> service_resolved_against(
                    #[trigger] done@[i],
                    all[i],
                    graph@,
                ),
        decreases rest.len(),
    {
        let ghost before = rest@;
        let s = rest.remove(0);
        assert(s == all[done@.len() as int]);
        assert(hyp ==> service_resolvable(s, graph_view(graph@)));
        assert(rest@ =~= all.skip(done@.len() as int + 1));
        let sf = resolve_service(s, &graph)?;
        let ghost old_done = done@;
        done.push(sf);
        assert forall|i: int| 0 <= i < done@.len() implies service_resolved_against(
            #[trigger] done@[i],
            all[i],
            graph@,
        ) by {
            if i < old_done.len() {
                assert(done@[i] == old_done[i]);
            }
        }
    }
    Ok((graph, done))
}

/// Resolving the same message against graphs that hold the same messages gives
/// the same definition text, legacy digest and content hash, however often it
/// is done.
pub proof fn law_resolution_deterministic(
    a: MessageFile,
    b: MessageFile,
    p: ParsedMessageView,
    ga: Seq<MessageFile>,
    gb: Seq<MessageFile>,
)
    requires
        resolved_against(a, p, ga),
        resolved_against(b, p, gb),
        graph_view(ga) == graph_view(gb),
    ensures
        a.definition@ == b.definition@,
        a.md5sum@ == b.md5sum@,
        a.ros2_hash == b.ros2_hash,
        a.is_fixed_encoding_length == b.is_fixed_encoding_length,
{
    assert(nodes(seq![], ga) =~= graph_view(ga));
    assert(nodes(seq![], gb) =~= graph_view(gb));
    assert(a.ros2_hash.0@ == b.ros2_hash.0@);
    vstd::array::axiom_array_ext_equal(a.ros2_hash.0, b.ros2_hash.0);
}

/// Two loads of the built-in types give the same definition texts, legacy
/// digests and content hashes.
#[verifier::rlimit(100)]
pub proof fn law_builtins_deterministic(g1: Seq<MessageFile>, g2: Seq<MessageFile>)
    requires
        g1.len() == 3,
        g2.len() == 3,
        resolved_against(g1[0], time_view()->0, g1.take(0)),
        resolved_against(g1[1], duration_view()->0, g1.take(1)),
        resolved_against(g1[2], event_info_view()->0, g1.take(2)),
        resolved_against(g2[0], time_view()->0, g2.take(0)),
        resolved_against(g2[1], duration_view()->0, g2.take(1)),
        resolved_against(g2[2], event_info_view()->0, g2.take(2)),
    ensures
        forall|i: int|
            0 <= i < 3 ==> {
                &&& (#[trigger] g1[i]).definition@ == g2[i].definition@
                &&& g1[i].md5sum@ == g2[i].md5sum@
                &&& g1[i].ros2_hash == g2[i].ros2_hash
                &&& g1[i].parsed@ == g2[i].parsed@
            },
{
    assert(graph_view(g1.take(0)) =~= graph_view(g2.take(0)));
    assert(graph_view(g1.take(1)) =~= graph_view(g2.take(1)));
    assert(graph_view(g1.take(2)) =~= graph_view(g2.take(2)));
    law_resolution_deterministic(g1[0], g2[0], time_view()->0, g1.take(0), g2.take(0));
    law_resolution_deterministic(g1[1], g2[1], duration_view()->0, g1.take(1), g2.take(1));
    law_resolution_deterministic(g1[2], g2[2], event_info_view()->0, g1.take(2), g2.take(2));
}

} // verus!
