//! The canonical JSON text of a type description: one line, `": "` after each key,
//! `", "` between members and elements, and no other white space.
use vstd::prelude::*;

use crate::ros2_hashing::{
    Field, FieldDescView, FieldType, FieldTypeDescView, TypeDescription, TypeDescriptionMsg,
    TypeDescriptionMsgView, TypeDescriptionView,
};
use crate::text::chars_of;

verus! {

/// The hexadecimal digit of `n`, in lower case.
pub open spec fn hex_digit(n: int) -> char {
    "0123456789abcdef"@[n]
}

pub fn hex_digit_exec(n: u32) -> (r: char)
    requires
        n < 16,
    ensures
        r == hex_digit(n as int),
{
    proof {
        reveal_strlit("0123456789abcdef");
    }
    "0123456789abcdef".get_char(n as usize)
}

/// How a character stands inside a JSON string.
pub open spec fn escape_char(c: char) -> Seq<char> {
    if c == '"' {
        "\\\""@
    } else if c == '\\' {
        "\\\\"@
    } else if c == '\n' {
        "\\n"@
    } else if c == '\r' {
        "\\r"@
    } else if c == '\t' {
        "\\t"@
    } else if c == '\x08' {
        "\\b"@
    } else if c == '\x0c' {
        "\\f"@
    } else if (c as u32) < 32 {
        "\\u00"@ + seq![hex_digit((c as u32) as int / 16), hex_digit((c as u32) as int % 16)]
    } else {
        seq![c]
    }
}

pub open spec fn escape(s: Seq<char>) -> Seq<char>
    decreases s.len(),
{
    if s.len() == 0 {
        seq![]
    } else {
        escape(s.drop_last()) + escape_char(s.last())
    }
}

/// A JSON string literal holding `s`.
pub open spec fn json_str(s: Seq<char>) -> Seq<char> {
    "\""@ + escape(s) + "\""@
}

/// The decimal digits of `n`.
pub open spec fn decimal(n: nat) -> Seq<char>
    decreases n,
{
    if n < 10 {
        seq![hex_digit(n as int)]
    } else {
        decimal(n / 10) + seq![hex_digit((n % 10) as int)]
    }
}

/// The elements of a JSON array or object, separated by `", "`.
pub open spec fn list_body(items: Seq<Seq<char>>) -> Seq<char>
    decreases items.len(),
{
    if items.len() == 0 {
        seq![]
    } else if items.len() == 1 {
        items[0]
    } else {
        list_body(items.drop_last()) + ", "@ + items.last()
    }
}

pub open spec fn json_list(items: Seq<Seq<char>>) -> Seq<char> {
    "["@ + list_body(items) + "]"@
}

pub open spec fn json_field_type(t: FieldTypeDescView) -> Seq<char> {
    "{\"type_id\": "@ + decimal(t.type_id as nat) + ", \"capacity\": "@ + decimal(
        t.capacity as nat,
    ) + ", \"string_capacity\": "@ + decimal(t.string_capacity as nat)
        + ", \"nested_type_name\": "@ + json_str(t.nested_name) + "}"@
}

pub open spec fn json_field(f: FieldDescView) -> Seq<char> {
    "{\"name\": "@ + json_str(f.name) + ", \"type\": "@ + json_field_type(f.field_type) + "}"@
}

pub open spec fn json_type_description(d: TypeDescriptionView) -> Seq<char> {
    "{\"type_name\": "@ + json_str(d.name) + ", \"fields\": "@ + json_list(
        d.fields.map_values(|f: FieldDescView| json_field(f)),
    ) + "}"@
}

/// The canonical JSON text of a type description and the types it refers to.
pub open spec fn json_msg(m: TypeDescriptionMsgView) -> Seq<char> {
    "{\"type_description\": "@ + json_type_description(m.type_description)
        + ", \"referenced_type_descriptions\": "@ + json_list(
        m.referenced_type_descriptions.map_values(|d: TypeDescriptionView| json_type_description(d)),
    ) + "}"@
}

fn write_escaped_char(out: &mut String, s: &str, c: char, i: usize)
    requires
        i < s@.len() <= usize::MAX,
        s@[i as int] == c,
    ensures
        final(out)@ == old(out)@ + escape_char(c),
{
    if c == '"' {
        out.append("\\\"");
    } else if c == '\\' {
        out.append("\\\\");
    } else if c == '\n' {
        out.append("\\n");
    } else if c == '\r' {
        out.append("\\r");
    } else if c == '\t' {
        out.append("\\t");
    } else if c == '\x08' {
        out.append("\\b");
    } else if c == '\x0c' {
        out.append("\\f");
    } else if (c as u32) < 32 {
        let code = c as u32;
        out.append("\\u00");
        let ghost before = out@;
        let hi = hex_digit_exec(code / 16);
        let lo = hex_digit_exec(code % 16);
        let digits = "0123456789abcdef";
        proof {
            reveal_strlit("0123456789abcdef");
        }
        out.append(digits.substring_char((code / 16) as usize, (code / 16 + 1) as usize));
        out.append(digits.substring_char((code % 16) as usize, (code % 16 + 1) as usize));
        assert(out@ =~= before + seq![hi, lo]);
    } else {
        out.append(s.substring_char(i, i + 1));
        assert(s@.subrange(i as int, i + 1) =~= seq![c]);
    }
}

/// Appends `s` as a JSON string literal.
pub fn write_json_str(out: &mut String, s: &str)
    ensures
        final(out)@ == old(out)@ + json_str(s@),
{
    let ghost start = out@;
    out.append("\"");
    let ghost open = out@;
    let chars = chars_of(s);
    let mut i: usize = 0;
    assert(chars@.take(0) =~= Seq::<char>::empty());
    assert(out@ =~= open + escape(chars@.take(0)));
    while i < chars.len()
        invariant
            chars@ == s@,
            i <= chars@.len(),
            out@ == open + escape(chars@.take(i as int)),
        decreases chars.len() - i,
    {
        let ghost before = out@;
        write_escaped_char(out, s, chars[i], i);
        assert(chars@.take(i + 1).drop_last() =~= chars@.take(i as int));
        assert(out@ =~= open + escape(chars@.take(i + 1)));
        i = i + 1;
    }
    assert(chars@.take(i as int) =~= s@);
    out.append("\"");
    assert(out@ =~= start + json_str(s@));
}

/// Appends the decimal digits of `n`.
pub fn write_decimal(out: &mut String, n: u32)
    ensures
        final(out)@ == old(out)@ + decimal(n as nat),
    decreases n,
{
    let digits = "0123456789abcdef";
    proof {
        reveal_strlit("0123456789abcdef");
    }
    if n < 10 {
        let ghost before = out@;
        out.append(digits.substring_char(n as usize, (n + 1) as usize));
        assert(out@ =~= before + decimal(n as nat));
    } else {
        write_decimal(out, n / 10);
        let ghost before = out@;
        out.append(digits.substring_char((n % 10) as usize, (n % 10 + 1) as usize));
        assert(out@ =~= before + seq![hex_digit((n % 10) as int)]);
    }
}

fn write_field_type(out: &mut String, t: &FieldType)
    ensures
        final(out)@ == old(out)@ + json_field_type(t@),
{
    let ghost start = out@;
    out.append("{\"type_id\": ");
    write_decimal(out, t.type_id as u32);
    out.append(", \"capacity\": ");
    write_decimal(out, t.capacity);
    out.append(", \"string_capacity\": ");
    write_decimal(out, t.string_capacity);
    out.append(", \"nested_type_name\": ");
    write_json_str(out, t.nested_name.as_str());
    out.append("}");
    assert(out@ =~= start + json_field_type(t@));
}

fn write_field(out: &mut String, f: &Field)
    ensures
        final(out)@ == old(out)@ + json_field(f@),
{
    let ghost start = out@;
    out.append("{\"name\": ");
    write_json_str(out, f.name.as_str());
    out.append(", \"type\": ");
    write_field_type(out, &f.field_type);
    out.append("}");
    assert(out@ =~= start + json_field(f@));
}

fn write_type_description(out: &mut String, d: &TypeDescription)
    ensures
        final(out)@ == old(out)@ + json_type_description(d@),
{
    let ghost start = out@;
    let ghost items = d@.fields.map_values(|f: FieldDescView| json_field(f));
    out.append("{\"type_name\": ");
    write_json_str(out, d.name.as_str());
    out.append(", \"fields\": ");
    out.append("[");
    let ghost open = out@;
    let mut i: usize = 0;
    assert(items.take(0) =~= Seq::<Seq<char>>::empty());
    assert(out@ =~= open + list_body(items.take(0)));
    while i < d.fields.len()
        invariant
            i <= d.fields@.len(),
            items == d@.fields.map_values(|f: FieldDescView| json_field(f)),
            items.len() == d.fields@.len(),
            out@ == open + list_body(items.take(i as int)),
        decreases d.fields.len() - i,
    {
        let ghost before = out@;
        if i > 0 {
            out.append(", ");
        }
        write_field(out, &d.fields[i]);
        proof {
            let next = items.take(i + 1);
            assert(next.drop_last() =~= items.take(i as int));
            assert(next.last() == json_field(d.fields@[i as int]@));
            if i == 0 {
                assert(out@ =~= open + list_body(next));
            } else {
                assert(out@ =~= open + list_body(next));
            }
        }
        i = i + 1;
    }
    assert(items.take(i as int) =~= items);
    out.append("]");
    out.append("}");
    assert(out@ =~= start + json_type_description(d@));
}

/// Serializes a type description in the exact form that ROS 2 hashes.
pub fn to_ros2_json(v: &TypeDescriptionMsg) -> (r: String)
    ensures
        r@ == json_msg(v@),
{
    let mut out = String::new();
    let ghost items = v@.referenced_type_descriptions.map_values(
        |d: TypeDescriptionView| json_type_description(d),
    );
    out.append("{\"type_description\": ");
    write_type_description(&mut out, &v.type_description);
    out.append(", \"referenced_type_descriptions\": ");
    out.append("[");
    let ghost open = out@;
    let refs = &v.referenced_type_descriptions;
    let mut i: usize = 0;
    assert(items.take(0) =~= Seq::<Seq<char>>::empty());
    assert(out@ =~= open + list_body(items.take(0)));
    while i < refs.len()
        invariant
            i <= refs@.len(),
            refs@ == v.referenced_type_descriptions@,
            items == v@.referenced_type_descriptions.map_values(
                |d: TypeDescriptionView| json_type_description(d),
            ),
            items.len() == refs@.len(),
            out@ == open + list_body(items.take(i as int)),
        decreases refs.len() - i,
    {
        if i > 0 {
            out.append(", ");
        }
        write_type_description(&mut out, &refs[i]);
        proof {
            let next = items.take(i + 1);
            assert(next.drop_last() =~= items.take(i as int));
            assert(next.last() == json_type_description(refs@[i as int]@));
            assert(out@ =~= open + list_body(next));
        }
        i = i + 1;
    }
    assert(items.take(i as int) =~= items);
    out.append("]");
    out.append("}");
    assert(out@ =~= json_msg(v@));
    out
}

} // verus!
