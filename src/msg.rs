use vstd::prelude::*;

use crate::parse::{
    parse_constant_field, parse_field, spec_parse_constant, spec_parse_field,
    spec_strip_comments, strip_comments,
};
use crate::text::{chars_of, skip_spaces, skip_token, skip_ws, skip_word, slice, trim_bounds, trim_range};
use crate::types::{
    constants_view, fields_view, ConstantInfo, ConstantInfoView, Error, ErrorKind, FieldInfo,
    FieldInfoView, Package, ParsedMessageFile, ParsedMessageView, ParsedServiceFile, RosVersion,
};

verus! {

/// The lines of `s[start..]`, where the line under way began at `start` and the
/// scan has reached `i`.
pub open spec fn lines_from(s: Seq<char>, start: int, i: int) -> Seq<Seq<char>>
    decreases s.len() - i,
{
    if i < 0 || i >= s.len() || start > i {
        seq![s.subrange(start, s.len() as int)]
    } else if s[i] == '\n' {
        seq![s.subrange(start, i)] + lines_from(s, i + 1, i + 1)
    } else {
        lines_from(s, start, i + 1)
    }
}

/// The text of `s` cut at each line break.
pub open spec fn spec_lines(s: Seq<char>) -> Seq<Seq<char>> {
    lines_from(s, 0, 0)
}

pub open spec fn strings_view(v: Seq<String>) -> Seq<Seq<char>> {
    v.map_values(|x: String| x@)
}

/// Cuts `s` at each line break.
pub fn split_lines(s: &str) -> (r: Vec<String>)
    ensures
        strings_view(r@) == spec_lines(s@),
{
    let c = chars_of(s);
    let mut lines: Vec<String> = Vec::new();
    let mut start: usize = 0;
    let mut i: usize = 0;
    while i < c.len()
        invariant
            c@ == s@,
            start <= i <= c@.len(),
            strings_view(lines@) + lines_from(c@, start as int, i as int) == spec_lines(s@),
        decreases c.len() - i,
    {
        if c[i] == '\n' {
            let line = slice(s, start, i);
            let ghost before = lines@;
            lines.push(line);
            proof {
                assert(strings_view(lines@) =~= strings_view(before).push(line@));
                assert(lines_from(c@, start as int, i as int) == seq![c@.subrange(start as int, i as int)]
                    + lines_from(c@, i + 1, i + 1));
                assert(strings_view(lines@) + lines_from(c@, i + 1, i + 1) =~= strings_view(before)
                    + lines_from(c@, start as int, i as int));
            }
            start = i + 1;
        }
        i = i + 1;
    }
    let line = slice(s, start, c.len());
    let ghost before = lines@;
    lines.push(line);
    proof {
        assert(strings_view(lines@) =~= strings_view(before) + lines_from(c@, start as int, i as int));
    }
    lines
}

/// A line without its comment and surrounding white space.
pub open spec fn clean_line(l: Seq<char>) -> Seq<char> {
    let c = spec_strip_comments(l);
    trim_range(c, 0, c.len() as int)
}

/// Whether a cleaned line declares a constant: its type token is followed by a
/// name and then `=`.
pub open spec fn is_constant_line(s: Seq<char>) -> bool {
    let b0 = skip_word(s, skip_ws(s, 0));
    let a1 = skip_ws(s, b0);
    let b1 = skip_name(s, a1);
    let a2 = skip_ws(s, b1);
    a1 < b1 && a2 < s.len() && s[a2] == '='
}

/// The first position at or after `i` that holds white space or `=`.
pub open spec fn skip_name(s: Seq<char>, i: int) -> int
    decreases s.len() - i,
{
    if 0 <= i < s.len() && !crate::text::is_space(s[i]) && s[i] != '=' {
        skip_name(s, i + 1)
    } else {
        i
    }
}

fn skip_name_exec(s: &Vec<char>, i: usize) -> (r: usize)
    requires
        i <= s@.len(),
    ensures
        r == skip_name(s@, i as int),
        i <= r <= s@.len(),
{
    let mut j = i;
    while j < s.len() && !crate::text::is_space_exec(s[j]) && s[j] != '='
        invariant
            i <= j <= s@.len(),
            skip_name(s@, j as int) == skip_name(s@, i as int),
        decreases s.len() - j,
    {
        j = j + 1;
    }
    j
}

fn constant_line(line: &str) -> (r: bool)
    ensures
        r == is_constant_line(line@),
{
    let s = chars_of(line);
    let a0 = skip_spaces(&s, 0);
    let b0 = skip_token(&s, a0);
    let a1 = skip_spaces(&s, b0);
    let b1 = skip_name_exec(&s, a1);
    let a2 = skip_spaces(&s, b1);
    a1 < b1 && a2 < s.len() && s[a2] == '='
}

/// The body of a message: its fields and constants in the order of their lines,
/// or the first failure.
pub open spec fn spec_parse_body(lines: Seq<Seq<char>>, pkg_name: Seq<char>, version: Option<RosVersion>) -> Result<
    (Seq<FieldInfoView>, Seq<ConstantInfoView>),
    ErrorKind,
>
    decreases lines.len(),
{
    if lines.len() == 0 {
        Ok((seq![], seq![]))
    } else {
        match spec_parse_body(lines.drop_last(), pkg_name, version) {
            Err(k) => Err(k),
            Ok((fs, cs)) => {
                let l = clean_line(lines.last());
                if l.len() == 0 {
                    Ok((fs, cs))
                } else if is_constant_line(l) {
                    match spec_parse_constant(l, pkg_name, version) {
                        Err(k) => Err(k),
                        Ok(c) => Ok((fs, cs.push(c))),
                    }
                } else {
                    match spec_parse_field(l, pkg_name, version) {
                        Err(k) => Err(k),
                        Ok(f) => Ok((fs.push(f), cs)),
                    }
                }
            },
        }
    }
}

/// A failure on some first lines of a body is the failure of the whole body.
proof fn lemma_body_error_prefix(
    lines: Seq<Seq<char>>,
    k: int,
    pkg_name: Seq<char>,
    version: Option<RosVersion>,
)
    requires
        0 <= k <= lines.len(),
        spec_parse_body(lines.take(k), pkg_name, version) is Err,
    ensures
        spec_parse_body(lines, pkg_name, version) == spec_parse_body(
            lines.take(k),
            pkg_name,
            version,
        ),
    decreases lines.len(),
{
    if k < lines.len() {
        assert(lines.drop_last().take(k) =~= lines.take(k));
        lemma_body_error_prefix(lines.drop_last(), k, pkg_name, version);
    } else {
        assert(lines.take(k) =~= lines);
    }
}

/// Parses the lines `lines[from..to]` as the body of a message.
fn parse_body(lines: &Vec<String>, from: usize, to: usize, pkg: &Package, name: &str) -> (r: Result<
    (Vec<FieldInfo>, Vec<ConstantInfo>),
    Error,
>)
    requires
        from <= to <= lines@.len(),
    ensures
        match r {
            Ok((fs, cs)) => spec_parse_body(
                strings_view(lines@).subrange(from as int, to as int),
                pkg.name@,
                pkg.version,
            ) == Ok::<(Seq<FieldInfoView>, Seq<ConstantInfoView>), ErrorKind>(
                (fields_view(fs@), constants_view(cs@)),
            ),
            Err(e) => spec_parse_body(
                strings_view(lines@).subrange(from as int, to as int),
                pkg.name@,
                pkg.version,
            ) == Err::<(Seq<FieldInfoView>, Seq<ConstantInfoView>), ErrorKind>(e.kind()),
        },
{
    let ghost all = strings_view(lines@);
    let mut fields: Vec<FieldInfo> = Vec::new();
    let mut constants: Vec<ConstantInfo> = Vec::new();
    let mut i = from;
    assert(all.subrange(from as int, from as int) =~= Seq::<Seq<char>>::empty());
    assert(fields_view(fields@) =~= Seq::<FieldInfoView>::empty());
    assert(constants_view(constants@) =~= Seq::<ConstantInfoView>::empty());
    while i < to
        invariant
            from <= i <= to <= lines@.len(),
            all == strings_view(lines@),
            spec_parse_body(all.subrange(from as int, i as int), pkg.name@, pkg.version) == Ok::<
                (Seq<FieldInfoView>, Seq<ConstantInfoView>),
                ErrorKind,
            >((fields_view(fields@), constants_view(constants@))),
        decreases to - i,
    {
        let ghost pre = all.subrange(from as int, i as int);
        let ghost next = all.subrange(from as int, i + 1);
        assert(next.drop_last() =~= pre);
        assert(next.last() == lines@[i as int]@);
        let stripped = strip_comments(lines[i].as_str());
        let sc = chars_of(stripped);
        let (lo, hi) = trim_bounds(&sc, 0, sc.len());
        let line = slice(stripped, lo, hi);
        assert(line@ == clean_line(lines@[i as int]@));
        if lo < hi {
            if constant_line(line.as_str()) {
                let c = match parse_constant_field(line.as_str(), pkg) {
                    Ok(c) => c,
                    Err(e) => {
                        proof {
                            let whole = all.subrange(from as int, to as int);
                            assert(whole.take(i + 1 - from) =~= next);
                            lemma_body_error_prefix(whole, i + 1 - from, pkg.name@, pkg.version);
                        }
                        return Err(e);
                    },
                };
                let ghost cs = constants@;
                constants.push(c);
                assert(constants_view(constants@) =~= constants_view(cs).push(c@));
            } else {
                let f = match parse_field(line.as_str(), pkg, name) {
                    Ok(f) => f,
                    Err(e) => {
                        proof {
                            let whole = all.subrange(from as int, to as int);
                            assert(whole.take(i + 1 - from) =~= next);
                            lemma_body_error_prefix(whole, i + 1 - from, pkg.name@, pkg.version);
                        }
                        return Err(e);
                    },
                };
                let ghost fs = fields@;
                fields.push(f);
                assert(fields_view(fields@) =~= fields_view(fs).push(f@));
            }
        }
        i = i + 1;
    }
    assert(all.subrange(from as int, to as int) =~= all.subrange(from as int, i as int));
    Ok((fields, constants))
}

/// The message that `data` defines, named `name`, in `pkg`, read from `path`.
pub open spec fn message_matches(
    m: ParsedMessageView,
    lines: Seq<Seq<char>>,
    data: Seq<char>,
    name: Seq<char>,
    pkg: Package,
    path: Seq<char>,
    service_part: bool,
) -> bool {
    &&& m.service_part == service_part
    &&& m.name == name
    &&& m.package == pkg.name@
    &&& m.version == pkg.version
    &&& m.source == data
    &&& m.path == path
    &&& spec_parse_body(lines, pkg.name@, pkg.version) == Ok::<
        (Seq<FieldInfoView>, Seq<ConstantInfoView>),
        ErrorKind,
    >((m.fields, m.constants))
}

/// Parses the text of a message definition file.
pub fn parse_ros_message_file(data: &str, name: &str, package: &Package, path: &str) -> (r: Result<
    ParsedMessageFile,
    Error,
>)
    ensures
        match r {
            Ok(m) => message_matches(m@, spec_lines(data@), data@, name@, *package, path@, false),
            Err(e) => spec_parse_body(spec_lines(data@), package.name@, package.version) == Err::<
                (Seq<FieldInfoView>, Seq<ConstantInfoView>),
                ErrorKind,
            >(e.kind()),
        },
{
    let lines = split_lines(data);
    assert(strings_view(lines@).subrange(0, lines@.len() as int) =~= strings_view(lines@));
    let (fields, constants) = parse_body(&lines, 0, lines.len(), package, name)?;
    Ok(
        ParsedMessageFile {
            name: name.to_owned(),
            package: package.name.clone(),
            fields,
            constants,
            version: package.version,
            source: data.to_owned(),
            path: path.to_owned(),
            service_part: false,
        },
    )
}

/// Whether a line separates the request of a service from its response.
pub open spec fn is_separator(l: Seq<char>) -> bool {
    let t = trim_range(l, 0, l.len() as int);
    3 <= t.len() && t.subrange(0, 3) == "---"@
}

/// The lines joined again, each followed by a line break.
pub open spec fn joined(lines: Seq<Seq<char>>) -> Seq<char>
    decreases lines.len(),
{
    if lines.len() == 0 {
        seq![]
    } else {
        joined(lines.drop_last()) + lines.last() + seq!['\n']
    }
}

fn join_lines(lines: &Vec<String>, from: usize, to: usize) -> (r: String)
    requires
        from <= to <= lines@.len(),
    ensures
        r@ == joined(strings_view(lines@).subrange(from as int, to as int)),
{
    let ghost all = strings_view(lines@);
    let mut r = String::new();
    let mut i = from;
    proof {
        reveal_strlit("\n");
        assert(all.subrange(from as int, from as int) =~= Seq::<Seq<char>>::empty());
    }
    while i < to
        invariant
            from <= i <= to <= lines@.len(),
            all == strings_view(lines@),
            r@ == joined(all.subrange(from as int, i as int)),
        decreases to - i,
    {
        let ghost next = all.subrange(from as int, i + 1);
        assert(next.drop_last() =~= all.subrange(from as int, i as int));
        assert(next.last() == lines@[i as int]@);
        proof {
            reveal_strlit("\n");
        }
        r.append(lines[i].as_str());
        r.append("\n");
        assert(r@ =~= joined(next));
        i = i + 1;
    }
    r
}

fn separator_line(line: &str) -> (r: bool)
    ensures
        r == is_separator(line@),
{
    let s = chars_of(line);
    let (lo, hi) = trim_bounds(&s, 0, s.len());
    proof {
        reveal_strlit("---");
    }
    let r = hi - lo >= 3 && s[lo] == '-' && s[lo + 1] == '-' && s[lo + 2] == '-';
    proof {
        let t = trim_range(s@, 0, s@.len() as int);
        assert(t == s@.subrange(lo as int, hi as int));
        assert("---"@ =~= seq!['-', '-', '-']);
        if t.len() >= 3 {
            assert(t[0] == s@[lo as int]);
            assert(t[1] == s@[lo + 1]);
            assert(t[2] == s@[lo + 2]);
            if t[0] == '-' && t[1] == '-' && t[2] == '-' {
                assert(t.subrange(0, 3) =~= "---"@);
            }
            if t.subrange(0, 3) == "---"@ {
                assert(t.subrange(0, 3)[1] == '-');
                assert(t.subrange(0, 3)[2] == '-');
            }
        }
    }
    r
}

/// The position of the first separator line, if any.
pub open spec fn first_separator(lines: Seq<Seq<char>>) -> Option<int> {
    if exists|k: int| 0 <= k < lines.len() && is_separator(#[trigger] lines[k]) {
        Some(
            choose|k: int|
                0 <= k < lines.len() && is_separator(#[trigger] lines[k]) && forall|j: int|
                    0 <= j < k ==> !is_separator(#[trigger] lines[j]),
        )
    } else {
        None
    }
}

/// Whether `m` is the part `lines` of a service `name` in `pkg`, read from `path`.
pub open spec fn section_matches(
    m: ParsedMessageView,
    lines: Seq<Seq<char>>,
    name: Seq<char>,
    pkg: Package,
    path: Seq<char>,
) -> bool {
    message_matches(m, lines, joined(lines), name, pkg, path, true)
}

/// Parses the text of a service definition file: a request and a response
/// separated by a line that begins with `---`.
pub fn parse_ros_service_file(data: &str, name: &str, package: &Package, path: &str) -> (r: Result<
    ParsedServiceFile,
    Error,
>)
    ensures
        match r {
            Ok(srv) => {
                let lines = spec_lines(data@);
                let k = first_separator(lines)->0;
                &&& first_separator(lines) is Some
                &&& srv.name@ == name@
                &&& srv.package@ == package.name@
                &&& srv.source@ == data@
                &&& srv.path@ == path@
                &&& section_matches(
                    srv.request_type@,
                    lines.take(k),
                    name@ + "Request"@,
                    *package,
                    path@,
                )
                &&& section_matches(
                    srv.response_type@,
                    lines.skip(k + 1),
                    name@ + "Response"@,
                    *package,
                    path@,
                )
            },
            Err(e) => {
                let lines = spec_lines(data@);
                let k = first_separator(lines)->0;
                match first_separator(lines) {
                    None => e.kind() == ErrorKind::Parse,
                    Some(k) => {
                        let req = spec_parse_body(lines.take(k), package.name@, package.version);
                        let resp = spec_parse_body(
                            lines.skip(k + 1),
                            package.name@,
                            package.version,
                        );
                        if req is Err {
                            req == Err::<
                                (Seq<FieldInfoView>, Seq<ConstantInfoView>),
                                ErrorKind,
                            >(e.kind())
                        } else {
                            resp == Err::<
                                (Seq<FieldInfoView>, Seq<ConstantInfoView>),
                                ErrorKind,
                            >(e.kind())
                        }
                    },
                }
            },
        },
{
    let lines = split_lines(data);
    let ghost all = strings_view(lines@);
    let mut k: usize = 0;
    while k < lines.len() && !separator_line(lines[k].as_str())
        invariant
            k <= lines@.len(),
            all == strings_view(lines@),
            forall|j: int| 0 <= j < k ==> !is_separator(#[trigger] all[j]),
        decreases lines.len() - k,
    {
        k = k + 1;
    }
    if k == lines.len() {
        return Err(
            Error::Parse {
                line: name.to_owned(),
                context: String::from_str("service without a '---' separator"),
            },
        );
    }
    proof {
        assert(is_separator(all[k as int]));
        let f = first_separator(all);
        let c = f->0;
        assert(!(c < k));
        assert(!(k < c));
        assert(all.take(k as int) =~= all.subrange(0, k as int));
        assert(all.skip(k + 1) =~= all.subrange(k + 1, all.len() as int));
    }
    let n = lines.len();
    let (req_fields, req_constants) = parse_body(&lines, 0, k, package, name)?;
    let (resp_fields, resp_constants) = parse_body(&lines, k + 1, n, package, name)?;
    let req_name = name.to_owned().concat("Request");
    let resp_name = name.to_owned().concat("Response");
    Ok(
        ParsedServiceFile {
            name: name.to_owned(),
            package: package.name.clone(),
            request_type: ParsedMessageFile {
                name: req_name,
                package: package.name.clone(),
                fields: req_fields,
                constants: req_constants,
                version: package.version,
                source: join_lines(&lines, 0, k),
                path: path.to_owned(),
                service_part: true,
            },
            response_type: ParsedMessageFile {
                name: resp_name,
                package: package.name.clone(),
                fields: resp_fields,
                constants: resp_constants,
                version: package.version,
                source: join_lines(&lines, k + 1, n),
                path: path.to_owned(),
                service_part: true,
            },
            source: data.to_owned(),
            path: path.to_owned(),
        },
    )
}

} // verus!
