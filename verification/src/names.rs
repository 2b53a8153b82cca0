//! Identifier inference: deriving a lowercase, underscore-separated method
//! name fragment from a type's surface name.
//!
//! The surface name is read as upper-camel casing and converted to snake
//! casing. A word boundary falls between a lowercase letter and a following
//! uppercase letter, at the last letter of a run of uppercase letters that
//! is followed by a lowercase letter, and — deliberately refining the naive
//! conversion — between a letter of either case and a following digit, so
//! that a trailing version-like suffix becomes its own word. Only ASCII
//! letters and digits mark boundaries; any other character is kept as it is.

use vstd::prelude::*;

verus! {

/// An ASCII uppercase letter.
pub open spec fn is_upper(c: char) -> bool {
    65 <= c as int <= 90
}

/// An ASCII lowercase letter.
pub open spec fn is_lower(c: char) -> bool {
    97 <= c as int <= 122
}

/// An ASCII digit.
pub open spec fn is_digit(c: char) -> bool {
    48 <= c as int <= 57
}

/// The ASCII lowercase counterpart of `c`; other characters are unchanged.
pub open spec fn lower_of(c: char) -> char {
    if is_upper(c) {
        ((c as int) + 32) as char
    } else {
        c
    }
}

/// Whether a word boundary falls immediately before position `i` of `s`.
pub open spec fn is_boundary(s: Seq<char>, i: int) -> bool {
    &&& 1 <= i < s.len()
    &&& {
        ||| (is_lower(s[i - 1]) && is_upper(s[i]))
        ||| (is_upper(s[i - 1]) && is_upper(s[i]) && i + 1 < s.len() && is_lower(s[i + 1]))
        ||| ((is_upper(s[i - 1]) || is_lower(s[i - 1])) && is_digit(s[i]))
    }
}

/// The snake-cased conversion of the first `n` characters of `s`: each
/// character lowercased, with an underscore inserted at every boundary.
pub open spec fn snake_prefix(s: Seq<char>, n: int) -> Seq<char>
    decreases n,
{
    if n <= 0 {
        Seq::empty()
    } else {
        snake_prefix(s, n - 1) + (if is_boundary(s, n - 1) {
            seq!['_']
        } else {
            Seq::<char>::empty()
        }) + seq![lower_of(s[n - 1])]
    }
}

/// The snake-cased conversion of a whole surface name.
pub open spec fn snake_of(s: Seq<char>) -> Seq<char> {
    snake_prefix(s, s.len() as int)
}

/// Relies on `String::from_iter` over the characters of a `Vec<char>`:
/// the built string holds exactly these characters in this order.
#[verifier::external_body]
fn chars_to_string(cs: &Vec<char>) -> (r: String)
    ensures
        r@ == cs@,
{
    cs.iter().collect()
}

/// The ASCII lowercase counterpart of `c`.
fn lower_char(c: char) -> (r: char)
    ensures
        r == lower_of(c),
{
    let code: u32 = c as u32;
    if 65 <= code && code <= 90 {
        let b: u8 = code as u8;
        proof {
            assert(code <= 90 ==> (code as u8) as u32 == code) by (bit_vector);
        }
        (b + 32) as char
    } else {
        c
    }
}

/// Whether `c` is an ASCII uppercase letter.
fn upper_char(c: char) -> (r: bool)
    ensures
        r == is_upper(c),
{
    let code: u32 = c as u32;
    65 <= code && code <= 90
}

/// Whether `c` is an ASCII lowercase letter.
fn lower_case_char(c: char) -> (r: bool)
    ensures
        r == is_lower(c),
{
    let code: u32 = c as u32;
    97 <= code && code <= 122
}

/// Whether `c` is an ASCII digit.
fn digit_char(c: char) -> (r: bool)
    ensures
        r == is_digit(c),
{
    let code: u32 = c as u32;
    48 <= code && code <= 57
}

/// The characters of `name`, in order.
fn collect_chars(name: &str) -> (cs: Vec<char>)
    ensures
        cs@ == name@,
{
    let n = name.unicode_len();
    let mut cs: Vec<char> = Vec::new();
    let mut i: usize = 0;
    while i < n
        invariant
            n == name@.len(),
            i <= n,
            cs@ == name@.take(i as int),
        decreases n - i,
    {
        let c = name.get_char(i);
        cs.push(c);
        proof {
            assert(cs@ =~= name@.take(i + 1));
        }
        i += 1;
    }
    proof {
        assert(name@.take(n as int) =~= name@);
    }
    cs
}

/// Derive the method-name fragment of a simple type name: the snake-cased
/// form of its upper-camel surface spelling, with digit runs split into
/// their own words.
pub fn infer_fragment(name: &str) -> (r: String)
    ensures
        r@ == snake_of(name@),
{
    let cs = collect_chars(name);
    let n = cs.len();
    let mut out: Vec<char> = Vec::new();
    let mut i: usize = 0;
    while i < n
        invariant
            n == cs.len(),
            cs@ == name@,
            i <= n,
            out@ == snake_prefix(name@, i as int),
        decreases n - i,
    {
        let c = cs[i];
        if i >= 1 {
            let prev = cs[i - 1];
            let boundary = (lower_case_char(prev) && upper_char(c)) || (upper_char(prev)
                && upper_char(c) && i + 1 < n && lower_case_char(cs[i + 1])) || ((upper_char(prev)
                || lower_case_char(prev)) && digit_char(c));
            assert(boundary == is_boundary(name@, i as int));
            if boundary {
                out.push('_');
            }
        }
        out.push(lower_char(c));
        proof {
            assert(out@ =~= snake_prefix(name@, i + 1));
        }
        i += 1;
    }
    chars_to_string(&out)
}

/// The ASCII digit character for `d`, which must be below ten.
pub open spec fn digit_char_of(d: int) -> char {
    (48 + d) as char
}

/// The decimal spelling of `n`.
pub open spec fn decimal_of(n: int) -> Seq<char>
    decreases n,
{
    if n < 10 {
        seq![digit_char_of(if n < 0 {
            0
        } else {
            n
        })]
    } else {
        decimal_of(n / 10) + seq![digit_char_of(n % 10)]
    }
}

/// Render `n` in decimal.
pub fn decimal_string(n: usize) -> (r: String)
    ensures
        r@ == decimal_of(n as int),
{
    let mut rev: Vec<char> = Vec::new();
    let mut rest: usize = n;
    loop
        invariant_except_break
            decimal_of(n as int) == decimal_of(rest as int) + rev@.reverse(),
        ensures
            decimal_of(n as int) == rev@.reverse(),
        decreases rest,
    {
        let d: u8 = (rest % 10) as u8;
        let c: char = (48 + d) as char;
        proof {
            assert(c == digit_char_of(rest as int % 10));
            let prev = rev@;
            assert((prev.push(c)).reverse() =~= seq![c] + prev.reverse());
        }
        rev.push(c);
        if rest < 10 {
            break ;
        }
        rest = rest / 10;
    }
    let mut out: Vec<char> = Vec::new();
    let mut i: usize = rev.len();
    while i > 0
        invariant
            i <= rev.len(),
            out@ == rev@.reverse().take(rev@.len() - i),
        decreases i,
    {
        i -= 1;
        out.push(rev[i]);
        proof {
            assert(out@ =~= rev@.reverse().take(rev@.len() - i));
        }
    }
    proof {
        assert(rev@.reverse().take(rev@.len() - 0) =~= rev@.reverse());
    }
    chars_to_string(&out)
}

/// Inferring a fragment is a pure function of the surface name: two
/// inferences from equal names give equal fragments.
pub proof fn lemma_inference_deterministic(s: Seq<char>, t: Seq<char>)
    requires
        s == t,
    ensures
        snake_of(s) == snake_of(t),
{
}

} // verus!
