use vstd::prelude::*;

verus! {

/// The characters of `s`, in order.
pub fn chars_of(s: &str) -> (r: Vec<char>)
    ensures
        r@ == s@,
{
    let mut r: Vec<char> = Vec::new();
    for c in it: s.chars()
        invariant
            r@ == it.seq().take(it.index() as int),
    {
        r.push(c);
    }
    proof {
        assert(r@ =~= s@);
    }
    r
}

/// The text of `s` between character positions `from` and `to`, as an owned string.
pub fn slice(s: &str, from: usize, to: usize) -> (r: String)
    requires
        from <= to <= s@.len(),
    ensures
        r@ == s@.subrange(from as int, to as int),
{
    s.substring_char(from, to).to_owned()
}

/// Whether two strings hold the same characters.
pub fn str_eq(a: &str, b: &str) -> (r: bool)
    ensures
        r == (a@ == b@),
{
    let x = chars_of(a);
    let y = chars_of(b);
    if x.len() != y.len() {
        return false;
    }
    let mut i: usize = 0;
    while i < x.len()
        invariant
            x@ == a@,
            y@ == b@,
            x.len() == y.len(),
            i <= x.len(),
            forall|j: int| 0 <= j < i ==> x@[j] == y@[j],
        decreases x.len() - i,
    {
        if x[i] != y[i] {
            return false;
        }
        i = i + 1;
    }
    assert(x@ =~= y@);
    true
}

/// Whether `s[from..to]` begins with `prefix`.
pub fn has_prefix_at(s: &Vec<char>, from: usize, to: usize, prefix: &str) -> (r: bool)
    requires
        from <= to <= s@.len(),
    ensures
        r == (prefix@.len() <= to - from && s@.subrange(from as int, from + prefix@.len())
            == prefix@),
{
    let p = chars_of(prefix);
    if p.len() > to - from {
        return false;
    }
    let mut i: usize = 0;
    while i < p.len()
        invariant
            p@ == prefix@,
            from + p.len() <= to <= s@.len(),
            i <= p.len(),
            forall|j: int| 0 <= j < i ==> s@[from + j] == p@[j],
        decreases p.len() - i,
    {
        if s[from + i] != p[i] {
            assert(s@.subrange(from as int, from + prefix@.len())[i as int] != prefix@[i as int]);
            return false;
        }
        i = i + 1;
    }
    assert(s@.subrange(from as int, from + prefix@.len()) =~= prefix@);
    true
}

/// Whether `s` ends with `suffix`.
pub fn has_suffix(s: &str, suffix: &str) -> (r: bool)
    ensures
        r == (suffix@.len() <= s@.len() && s@.subrange(s@.len() - suffix@.len(), s@.len() as int)
            == suffix@),
{
    let c = chars_of(s);
    let p = chars_of(suffix);
    if p.len() > c.len() {
        return false;
    }
    let start = c.len() - p.len();
    let mut i: usize = 0;
    while i < p.len()
        invariant
            c@ == s@,
            p@ == suffix@,
            start + p.len() == c.len(),
            i <= p.len(),
            forall|j: int| 0 <= j < i ==> c@[start + j] == p@[j],
        decreases p.len() - i,
    {
        if c[start + i] != p[i] {
            assert(s@.subrange(start as int, s@.len() as int)[i as int] != suffix@[i as int]);
            return false;
        }
        i = i + 1;
    }
    assert(s@.subrange(start as int, s@.len() as int) =~= suffix@);
    true
}

/// The first position at or after `from` and before `to` where `c` stands.
pub fn find_char(s: &Vec<char>, from: usize, to: usize, c: char) -> (r: Option<usize>)
    requires
        from <= to <= s@.len(),
    ensures
        match r {
            Some(i) => from <= i < to && s@[i as int] == c && forall|j: int|
                from <= j < i ==> s@[j] != c,
            None => forall|j: int| from <= j < to ==> s@[j] != c,
        },
{
    let mut i = from;
    while i < to
        invariant
            from <= i <= to <= s@.len(),
            forall|j: int| from <= j < i ==> s@[j] != c,
        decreases to - i,
    {
        if s[i] == c {
            return Some(i);
        }
        i = i + 1;
    }
    None
}

/// The first position of `c` in `s`, in the form vstd states it.
pub proof fn lemma_first_index<A>(s: Seq<A>, c: A, r: Option<usize>)
    requires
        match r {
            Some(i) => i < s.len() && s[i as int] == c && forall|j: int| 0 <= j < i ==> s[j] != c,
            None => forall|j: int| 0 <= j < s.len() ==> s[j] != c,
        },
    ensures
        s.index_of_first(c) == match r {
            Some(i) => Some(i as int),
            None => None::<int>,
        },
{
    s.index_of_first_ensures(c);
    match r {
        Some(i) => {
            let k = s.index_of_first(c).unwrap();
            assert(!(k < i));
            assert(!(i < k));
        },
        None => {},
    }
}

/// The last position of `c` in `s`, in the form vstd states it.
pub proof fn lemma_last_index<A>(s: Seq<A>, c: A, r: Option<usize>)
    requires
        match r {
            Some(i) => i < s.len() && s[i as int] == c && forall|j: int| i < j < s.len() ==> s[j] != c,
            None => forall|j: int| 0 <= j < s.len() ==> s[j] != c,
        },
    ensures
        s.index_of_last(c) == match r {
            Some(i) => Some(i as int),
            None => None::<int>,
        },
{
    s.index_of_last_ensures(c);
    match r {
        Some(i) => {
            assert(s.contains(c));
            let k = s.index_of_last(c).unwrap();
            assert(!(k < i));
            assert(!(i < k));
        },
        None => {},
    }
}

/// The first position of `c` in `s[from..to]`, counted from `from`.
pub proof fn lemma_first_index_in(s: Seq<char>, from: int, to: int, c: char, r: Option<usize>)
    requires
        0 <= from <= to <= s.len(),
        match r {
            Some(i) => from <= i < to && s[i as int] == c && forall|j: int|
                from <= j < i ==> s[j] != c,
            None => forall|j: int| from <= j < to ==> s[j] != c,
        },
    ensures
        s.subrange(from, to).index_of_first(c) == match r {
            Some(i) => Some(i - from),
            None => None::<int>,
        },
{
    let sub = s.subrange(from, to);
    sub.index_of_first_ensures(c);
    match r {
        Some(i) => {
            assert(sub[i - from] == c);
            let k = sub.index_of_first(c).unwrap();
            assert(!(k < i - from)) by {
                if k < i - from {
                    assert(s[from + k] == c);
                }
            }
            assert(!(i - from < k));
        },
        None => {
            if sub.contains(c) {
                let k = choose|k: int| 0 <= k < sub.len() && sub[k] == c;
                assert(s[from + k] == c);
            }
        },
    }
}

/// Whether `c` separates tokens in a definition line: a character of Unicode's
/// `White_Space` property, as `char::is_whitespace` has it.
pub open spec fn is_space(c: char) -> bool {
    let u = c as u32;
    (9 <= u <= 13) || u == 32 || u == 0x85 || u == 0xa0 || u == 0x1680 || (0x2000 <= u
        <= 0x200a) || u == 0x2028 || u == 0x2029 || u == 0x202f || u == 0x205f || u == 0x3000
}

pub fn is_space_exec(c: char) -> (r: bool)
    ensures
        r == is_space(c),
{
    let u = c as u32;
    (9 <= u && u <= 13) || u == 32 || u == 0x85 || u == 0xa0 || u == 0x1680 || (0x2000 <= u && u
        <= 0x200a) || u == 0x2028 || u == 0x2029 || u == 0x202f || u == 0x205f || u == 0x3000
}

/// The first position at or after `i` that is not white space.
pub open spec fn skip_ws(s: Seq<char>, i: int) -> int
    decreases s.len() - i,
{
    if 0 <= i < s.len() && is_space(s[i]) {
        skip_ws(s, i + 1)
    } else {
        i
    }
}

/// The first position at or after `i` that is white space.
pub open spec fn skip_word(s: Seq<char>, i: int) -> int
    decreases s.len() - i,
{
    if 0 <= i < s.len() && !is_space(s[i]) {
        skip_word(s, i + 1)
    } else {
        i
    }
}

/// The end of `s[lo..hi]` once trailing white space is cut off.
pub open spec fn trim_end(s: Seq<char>, lo: int, hi: int) -> int
    decreases hi - lo,
{
    if lo < hi && is_space(s[hi - 1]) {
        trim_end(s, lo, hi - 1)
    } else {
        hi
    }
}

/// `s[lo..hi]` without leading and trailing white space.
pub open spec fn trim_range(s: Seq<char>, lo: int, hi: int) -> Seq<char> {
    let a = skip_ws(s.subrange(0, hi), lo);
    s.subrange(a, trim_end(s, a, hi))
}

pub fn skip_spaces(s: &Vec<char>, i: usize) -> (r: usize)
    requires
        i <= s@.len(),
    ensures
        r == skip_ws(s@, i as int),
        i <= r <= s@.len(),
{
    let mut j = i;
    while j < s.len() && is_space_exec(s[j])
        invariant
            i <= j <= s@.len(),
            skip_ws(s@, j as int) == skip_ws(s@, i as int),
        decreases s.len() - j,
    {
        j = j + 1;
    }
    j
}

pub fn skip_token(s: &Vec<char>, i: usize) -> (r: usize)
    requires
        i <= s@.len(),
    ensures
        r == skip_word(s@, i as int),
        i <= r <= s@.len(),
{
    let mut j = i;
    while j < s.len() && !is_space_exec(s[j])
        invariant
            i <= j <= s@.len(),
            skip_word(s@, j as int) == skip_word(s@, i as int),
        decreases s.len() - j,
    {
        j = j + 1;
    }
    j
}

/// The bounds of `s[lo..hi]` without leading and trailing white space.
pub fn trim_bounds(s: &Vec<char>, lo: usize, hi: usize) -> (r: (usize, usize))
    requires
        lo <= hi <= s@.len(),
    ensures
        lo <= r.0 <= r.1 <= hi,
        s@.subrange(r.0 as int, r.1 as int) == trim_range(s@, lo as int, hi as int),
{
    let ghost t = s@.subrange(0, hi as int);
    let mut a = lo;
    while a < hi && is_space_exec(s[a])
        invariant
            lo <= a <= hi <= s@.len(),
            t == s@.subrange(0, hi as int),
            skip_ws(t, a as int) == skip_ws(t, lo as int),
        decreases hi - a,
    {
        a = a + 1;
    }
    let mut b = hi;
    while b > a && is_space_exec(s[b - 1])
        invariant
            lo <= a <= b <= hi <= s@.len(),
            trim_end(s@, a as int, b as int) == trim_end(s@, a as int, hi as int),
        decreases b - a,
    {
        b = b - 1;
    }
    (a, b)
}

pub open spec fn is_digit(c: char) -> bool {
    48 <= (c as u32) <= 57
}

pub open spec fn digit_value(c: char) -> nat {
    ((c as u32) - 48) as nat
}

/// The number that a string of decimal digits denotes.
pub open spec fn decimal_value(s: Seq<char>) -> nat
    decreases s.len(),
{
    if s.len() == 0 {
        0
    } else {
        decimal_value(s.drop_last()) * 10 + digit_value(s.last())
    }
}

pub open spec fn all_digits(s: Seq<char>) -> bool {
    forall|i: int| 0 <= i < s.len() ==> is_digit(#[trigger] s[i])
}

/// The unsigned integer that `s` denotes: an optional `+` and one or more decimal
/// digits, with a value that fits in `usize`.
pub open spec fn spec_parse_usize(s: Seq<char>) -> Option<usize> {
    let d = if s.len() > 0 && s[0] == '+' {
        s.drop_first()
    } else {
        s
    };
    if d.len() > 0 && all_digits(d) && decimal_value(d) <= usize::MAX {
        Some(decimal_value(d) as usize)
    } else {
        None
    }
}

/// Reads `s[from..to]` as an unsigned integer.
pub fn parse_usize(s: &Vec<char>, from: usize, to: usize) -> (r: Option<usize>)
    requires
        from <= to <= s@.len(),
    ensures
        r == spec_parse_usize(s@.subrange(from as int, to as int)),
{
    let ghost whole = s@.subrange(from as int, to as int);
    let start: usize = if from < to && s[from] == '+' {
        from + 1
    } else {
        from
    };
    let ghost d = s@.subrange(start as int, to as int);
    assert(d =~= (if whole.len() > 0 && whole[0] == '+' {
        whole.drop_first()
    } else {
        whole
    }));
    if start == to {
        return None;
    }
    let mut acc: usize = 0;
    let mut too_big = false;
    let mut i = start;
    while i < to
        invariant
            start <= i <= to <= s@.len(),
            d == s@.subrange(start as int, to as int),
            whole == s@.subrange(from as int, to as int),
            d == (if whole.len() > 0 && whole[0] == '+' {
                whole.drop_first()
            } else {
                whole
            }),
            all_digits(s@.subrange(start as int, i as int)),
            too_big ==> decimal_value(s@.subrange(start as int, i as int)) > usize::MAX,
            !too_big ==> acc == decimal_value(s@.subrange(start as int, i as int)),
        decreases to - i,
    {
        let c = s[i];
        let code = c as u32;
        if code < 48 || code > 57 {
            assert(d[i - start] == c);
            assert(!is_digit(d[i - start]));
            return None;
        }
        let v = (code - 48) as usize;
        let ghost pre = s@.subrange(start as int, i as int);
        let ghost next = s@.subrange(start as int, i + 1);
        assert(next.drop_last() =~= pre);
        assert(next.last() == c);
        assert(all_digits(next)) by {
            assert forall|j: int| 0 <= j < next.len() implies is_digit(#[trigger] next[j]) by {
                if j < pre.len() {
                    assert(next[j] == pre[j]);
                }
            }
        }
        if !too_big {
            match acc.checked_mul(10) {
                Some(m) => match m.checked_add(v) {
                    Some(n) => {
                        acc = n;
                    },
                    None => {
                        too_big = true;
                    },
                },
                None => {
                    too_big = true;
                },
            }
        }
        i = i + 1;
    }
    assert(s@.subrange(start as int, i as int) =~= d);
    if too_big {
        None
    } else {
        Some(acc)
    }
}

} // verus!
