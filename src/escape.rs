use vstd::prelude::*;

use crate::text::chars_of;

verus! {

/// The value of `c` as a hexadecimal digit, if it is one (either case).
pub open spec fn hex_digit_value(c: char) -> Option<nat> {
    if '0' <= c && c <= '9' {
        Some((c as u32 - '0' as u32) as nat)
    } else if 'a' <= c && c <= 'f' {
        Some((c as u32 - 'a' as u32 + 10) as nat)
    } else if 'A' <= c && c <= 'F' {
        Some((c as u32 - 'A' as u32 + 10) as nat)
    } else {
        None
    }
}

/// Whether `v` is the number of a Unicode scalar value.
pub open spec fn is_scalar_value(v: nat) -> bool {
    v < 0xD800 || (0xE000 <= v && v <= 0x10FFFF)
}

/// Reads one hexadecimal digit.
pub fn hex_value(c: char) -> (r: Option<u32>)
    ensures
        r is Some <==> hex_digit_value(c) is Some,
        r matches Some(v) ==> v as nat == hex_digit_value(c)->0,
        r matches Some(v) ==> v < 16,
{
    if '0' <= c && c <= '9' {
        Some(c as u32 - '0' as u32)
    } else if 'a' <= c && c <= 'f' {
        Some(c as u32 - 'a' as u32 + 10)
    } else if 'A' <= c && c <= 'F' {
        Some(c as u32 - 'A' as u32 + 10)
    } else {
        None
    }
}

/// Relies on `std::char::from_u32`: it gives the character numbered `v`
/// exactly when `v` is a Unicode scalar value.
#[verifier::external_body]
fn char_from_code(v: u32) -> (r: Option<char>)
    ensures
        r is Some <==> is_scalar_value(v as nat),
        r matches Some(c) ==> c as u32 == v,
{
    std::char::from_u32(v)
}

/// The number of the character `c`.
pub open spec fn char_code(c: char) -> nat {
    c as u32 as nat
}

/// The character numbered `v`.
pub open spec fn char_of(v: nat) -> char {
    choose|c: char| #[trigger] char_code(c) == v
}

/// The character that an escape `\\c` stands for, when `c` is not `u`:
/// the usual letter codes, and `c` itself for any other character.
pub open spec fn escape_letter(c: char) -> char {
    if c == 'b' {
        '\x08'
    } else if c == 'f' {
        '\x0c'
    } else if c == 'n' {
        '\n'
    } else if c == 'r' {
        '\r'
    } else if c == 't' {
        '\t'
    } else {
        c
    }
}

/// The number written by four hexadecimal digits, most significant first.
pub open spec fn hex4(a: char, b: char, c: char, d: char) -> Option<nat> {
    match (hex_digit_value(a), hex_digit_value(b), hex_digit_value(c), hex_digit_value(d)) {
        (Some(x), Some(y), Some(z), Some(w)) => Some(x * 4096 + y * 256 + z * 16 + w),
        _ => None,
    }
}

/// `p` in front of the text `r`, when there is one.
pub open spec fn prepend(p: Seq<char>, r: Option<Seq<char>>) -> Option<Seq<char>> {
    match r {
        Some(t) => Some(p + t),
        None => None,
    }
}

/// The text that `s` stands for once its backslash escapes are decoded, or
/// `None` where an escape is cut short: a final lone backslash, or a `\\u`
/// that is not followed by four hexadecimal digits naming a scalar value.
pub open spec fn unescaped(s: Seq<char>) -> Option<Seq<char>>
    decreases s.len(),
{
    if s.len() == 0 {
        Some(Seq::empty())
    } else if s[0] != '\\' {
        prepend(seq![s[0]], unescaped(s.subrange(1, s.len() as int)))
    } else if s.len() < 2 {
        None
    } else if s[1] != 'u' {
        prepend(seq![escape_letter(s[1])], unescaped(s.subrange(2, s.len() as int)))
    } else if s.len() < 6 {
        None
    } else {
        match hex4(s[2], s[3], s[4], s[5]) {
            Some(v) => if is_scalar_value(v) {
                prepend(seq![char_of(v)], unescaped(s.subrange(6, s.len() as int)))
            } else {
                None
            },
            None => None,
        }
    }
}

proof fn lemma_char_of_code(d: char)
    ensures
        char_of(char_code(d)) == d,
{
    let w = char_of(char_code(d));
    assert(char_code(w) == char_code(d));
    assert(w as u32 == d as u32);
}

proof fn lemma_prepend_empty(r: Option<Seq<char>>)
    ensures
        prepend(Seq::empty(), r) == r,
{
    if let Some(t) = r {
        assert(Seq::<char>::empty() + t == t);
    }
}

proof fn lemma_prepend_assoc(p: Seq<char>, q: Seq<char>, r: Option<Seq<char>>)
    ensures
        prepend(p, prepend(q, r)) == prepend(p + q, r),
{
    if let Some(t) = r {
        assert(p + (q + t) == (p + q) + t);
    }
}

/// An escape sequence that is cut short or names no character.
#[derive(Debug, Clone, Copy, PartialEq, Eq, Structural)]
pub struct MalformedEscape;

fn escape_letter_exec(c: char) -> (r: char)
    ensures
        r == escape_letter(c),
{
    if c == 'b' {
        '\x08'
    } else if c == 'f' {
        '\x0c'
    } else if c == 'n' {
        '\n'
    } else if c == 'r' {
        '\r'
    } else if c == 't' {
        '\t'
    } else {
        c
    }
}

fn hex4_value(a: char, b: char, c: char, d: char) -> (r: Option<u32>)
    ensures
        r is Some <==> hex4(a, b, c, d) is Some,
        r matches Some(v) ==> v as nat == hex4(a, b, c, d)->0,
{
    match (hex_value(a), hex_value(b), hex_value(c), hex_value(d)) {
        (Some(x), Some(y), Some(z), Some(w)) => Some(x * 4096 + y * 256 + z * 16 + w),
        _ => None,
    }
}

/// Decodes the backslash escapes of `s`: `\\n`, `\\r`, `\\t`, `\\b`, `\\f`,
/// `\\uXXXX`, and any other escaped character as itself.
pub fn unescape(s: &str) -> (r: Result<String, MalformedEscape>)
    ensures
        r is Err <==> unescaped(s@) is None,
        r matches Ok(t) ==> unescaped(s@) == Some(t@),
{
    let cs = chars_of(s);
    let n = cs.len();
    let mut out = String::new();
    let mut i: usize = 0;
    proof {
        assert(s@.subrange(0, n as int) == s@);
        lemma_prepend_empty(unescaped(s@));
    }
    while i < n
        invariant
            n == cs@.len(),
            cs@ == s@,
            i <= n,
            unescaped(s@) == prepend(out@, unescaped(s@.subrange(i as int, n as int))),
        decreases n - i,
    {
        let ghost rest = s@.subrange(i as int, n as int);
        let c = cs[i];
        if c != '\\' {
            proof {
                assert(rest.subrange(1, rest.len() as int) == s@.subrange(i + 1, n as int));
                assert(out@.push(c) == out@ + seq![c]);
                lemma_prepend_assoc(out@, seq![c], unescaped(s@.subrange(i + 1, n as int)));
            }
            out.push(c);
            i += 1;
        } else if n - i < 2 {
            return Err(MalformedEscape);
        } else if cs[i + 1] != 'u' {
            let e = escape_letter_exec(cs[i + 1]);
            proof {
                assert(rest.subrange(2, rest.len() as int) == s@.subrange(i + 2, n as int));
                assert(out@.push(e) == out@ + seq![e]);
                lemma_prepend_assoc(out@, seq![e], unescaped(s@.subrange(i + 2, n as int)));
            }
            out.push(e);
            i += 2;
        } else if n - i < 6 {
            return Err(MalformedEscape);
        } else {
            match hex4_value(cs[i + 2], cs[i + 3], cs[i + 4], cs[i + 5]) {
                Some(v) => match char_from_code(v) {
                    Some(d) => {
                        proof {
                            assert(rest.subrange(6, rest.len() as int) == s@.subrange(i + 6, n as int));
                            lemma_char_of_code(d);
                            assert(out@.push(d) == out@ + seq![d]);
                            lemma_prepend_assoc(out@, seq![d], unescaped(s@.subrange(i + 6, n as int)));
                        }
                        out.push(d);
                        i += 6;
                    },
                    None => {
                        return Err(MalformedEscape);
                    },
                },
                None => {
                    return Err(MalformedEscape);
                },
            }
        }
    }
    assert(unescaped(s@.subrange(n as int, n as int)) == Some(Seq::<char>::empty()));
    assert(out@ + Seq::<char>::empty() == out@);
    Ok(out)
}

} // verus!
