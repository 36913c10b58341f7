//! Names as authors type them: surrounding white space is not part of a
//! name, and names that differ only in ASCII case are the same name.

use vstd::prelude::*;
use vstd::string::{StrSliceExecFns, StringExecFns};

verus! {

/// The characters of Unicode's White_Space property.
pub open spec fn white_space(c: char) -> bool {
    let n = c as u32;
    ||| 0x09 <= n <= 0x0D
    ||| n == 0x20
    ||| n == 0x85
    ||| n == 0xA0
    ||| n == 0x1680
    ||| 0x2000 <= n <= 0x200A
    ||| n == 0x2028
    ||| n == 0x2029
    ||| n == 0x202F
    ||| n == 0x205F
    ||| n == 0x3000
}

/// `s` without its leading white space.
pub open spec fn trim_start(s: Seq<char>) -> Seq<char>
    decreases s.len(),
{
    if s.len() > 0 && white_space(s[0]) {
        trim_start(s.drop_first())
    } else {
        s
    }
}

/// `s` without its trailing white space.
pub open spec fn trim_end(s: Seq<char>) -> Seq<char>
    decreases s.len(),
{
    if s.len() > 0 && white_space(s.last()) {
        trim_end(s.drop_last())
    } else {
        s
    }
}

/// `s` without leading and trailing white space.
pub open spec fn trimmed(s: Seq<char>) -> Seq<char> {
    trim_end(trim_start(s))
}

fn is_white_space(c: char) -> (r: bool)
    ensures
        r == white_space(c),
{
    let n = c as u32;
    (0x09 <= n && n <= 0x0D) || n == 0x20 || n == 0x85 || n == 0xA0 || n == 0x1680 || (0x2000 <= n && n <= 0x200A)
        || n == 0x2028 || n == 0x2029 || n == 0x202F || n == 0x205F || n == 0x3000
}

/// `text` without leading and trailing white space.
pub fn trim_text(text: &str) -> (r: String)
    ensures
        r@ == trimmed(text@),
{
    let ghost s = text@;
    let len = text.unicode_len();
    let mut start: usize = 0;
    assert(s.subrange(0, len as int) =~= s);
    while start < len && is_white_space(text.get_char(start))
        invariant
            len == s.len(),
            s == text@,
            start <= len,
            trim_start(s) == trim_start(s.subrange(start as int, len as int)),
        decreases len - start,
    {
        proof {
            let rest = s.subrange(start as int, len as int);
            assert(rest.drop_first() =~= s.subrange(start + 1, len as int));
        }
        start = start + 1;
    }
    proof {
        let rest = s.subrange(start as int, len as int);
        if start < len {
            assert(rest[0] == s[start as int]);
        }
        assert(trim_start(rest) == rest);
    }
    let mut end: usize = len;
    while end > start && is_white_space(text.get_char(end - 1))
        invariant
            len == s.len(),
            s == text@,
            start <= end <= len,
            trim_start(s) == s.subrange(start as int, len as int),
            trimmed(s) == trim_end(s.subrange(start as int, end as int)),
        decreases end - start,
    {
        proof {
            let rest = s.subrange(start as int, end as int);
            assert(rest.last() == s[end - 1]);
            assert(rest.drop_last() =~= s.subrange(start as int, end - 1));
        }
        end = end - 1;
    }
    proof {
        let rest = s.subrange(start as int, end as int);
        if end > start {
            assert(rest.last() == s[end - 1]);
        }
        assert(trim_end(rest) == rest);
    }
    text.substring_char(start, end).to_owned()
}

/// `c` with an ASCII capital letter made small.
pub open spec fn ascii_lower(c: char) -> char {
    if 'A' <= c <= 'Z' {
        (((c as u8) + 32) as u8) as char
    } else {
        c
    }
}

/// `a` and `b` are the same text up to ASCII case.
pub open spec fn same_ignoring_ascii_case(a: Seq<char>, b: Seq<char>) -> bool {
    a.len() == b.len() && forall|k: int| 0 <= k < a.len() ==> ascii_lower(#[trigger] a[k]) == ascii_lower(b[k])
}

fn lower_char(c: char) -> (r: char)
    ensures
        r == ascii_lower(c),
{
    if 'A' <= c && c <= 'Z' {
        let n: u8 = (c as u8) + 32;
        n as char
    } else {
        c
    }
}

/// Whether `a` and `b` are the same text up to ASCII case.
pub fn eq_ignoring_ascii_case(a: &str, b: &str) -> (r: bool)
    ensures
        r == same_ignoring_ascii_case(a@, b@),
{
    let len = a.unicode_len();
    if len != b.unicode_len() {
        return false;
    }
    for k in 0..len
        invariant
            len == a@.len(),
            len == b@.len(),
            forall|m: int| 0 <= m < k ==> ascii_lower(#[trigger] a@[m]) == ascii_lower(b@[m]),
    {
        if lower_char(a.get_char(k)) != lower_char(b.get_char(k)) {
            return false;
        }
    }
    true
}

} // verus!
