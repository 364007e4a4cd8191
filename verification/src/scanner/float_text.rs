use vstd::prelude::*;

use crate::scanner::{digits_end, lemma_run_end, spec_peek, CharClass};
use crate::text::str_to_chars;

verus! {

// ---------------------------------------------------------------------------
// Which texts std reads as a floating-point number. Its documentation gives
// the grammar, for the text once lower-cased:
//
//     Float  ::= Sign? ( 'inf' | 'infinity' | 'nan' | Number )
//     Number ::= ( Digit+ | Digit+ '.' Digit* | Digit* '.' Digit+ ) Exp?
//     Exp    ::= 'e' Sign? Digit+
//     Sign   ::= [+-]
//     Digit  ::= [0-9]
// ---------------------------------------------------------------------------

pub open spec fn is_sign(c: char) -> bool {
    c == '+' || c == '-'
}

/// The capital of each lower-case letter that the grammar's words use.
pub open spec fn capital(c: char) -> char {
    if c == 'a' { 'A' }
    else if c == 'e' { 'E' }
    else if c == 'f' { 'F' }
    else if c == 'i' { 'I' }
    else if c == 'n' { 'N' }
    else if c == 't' { 'T' }
    else if c == 'y' { 'Y' }
    else { c }
}

/// `t` spells the lower-case word `w`, each letter in either case.
pub open spec fn spells(t: Seq<char>, w: Seq<char>) -> bool {
    &&& t.len() == w.len()
    &&& forall|k: int| 0 <= k < t.len() ==> #[trigger] t[k] == w[k] || t[k] == capital(w[k])
}

/// An exponent: `e` or `E`, an optional sign, then at least one digit.
pub open spec fn exponent_text(x: Seq<char>) -> bool {
    let k: int = if x.len() > 1 && is_sign(x[1]) { 2 } else { 1 };
    &&& x.len() > 0
    &&& (x[0] == 'e' || x[0] == 'E')
    &&& k < x.len()
    &&& digits_end(x, k) == x.len()
}

/// A decimal number without its sign: digits, then a `.` and digits, with
/// at least one digit in all, then an optional exponent.
pub open spec fn decimal_text(b: Seq<char>) -> bool {
    let d = digits_end(b, 0);
    let dot = spec_peek(b, d) == '.';
    let m = if dot { digits_end(b, d + 1) } else { d };
    let count = if dot { m - 1 } else { m };
    &&& count > 0
    &&& (m == b.len() || exponent_text(b.subrange(m, b.len() as int)))
}

/// `s` is a text that std reads as a floating-point number.
pub open spec fn float_text(s: Seq<char>) -> bool {
    let b = if s.len() > 0 && is_sign(s[0]) { s.drop_first() } else { s };
    spells(b, "inf"@) || spells(b, "infinity"@) || spells(b, "nan"@) || decimal_text(b)
}

/// The characters of `cs` from `from` to `to`.
pub fn copy_chars(cs: &[char], from: usize, to: usize) -> (r: Vec<char>)
    requires
        from <= to <= cs@.len(),
    ensures
        r@ == cs@.subrange(from as int, to as int),
{
    let mut r: Vec<char> = Vec::new();
    let mut i = from;
    while i < to
        invariant
            from <= i <= to <= cs@.len(),
            r@ == cs@.subrange(from as int, i as int),
        decreases to - i,
    {
        r.push(cs[i]);
        assert(cs@.subrange(from as int, i as int).push(cs@[i as int]) =~= cs@.subrange(
            from as int,
            i + 1,
        ));
        i = i + 1;
    }
    r
}

/// Where the run of digits that starts at `i` ends.
pub fn digits_from(b: &[char], i: usize) -> (r: usize)
    requires
        i <= b@.len(),
    ensures
        r == digits_end(b@, i as int),
{
    let ghost i0 = i as int;
    proof {
        lemma_run_end(b@, i0, CharClass::Digit);
    }
    let mut j = i;
    while j < b.len() && '0' <= b[j] && b[j] <= '9'
        invariant
            i0 <= j <= b@.len(),
            digits_end(b@, j as int) == digits_end(b@, i0),
        decreases b@.len() - j,
    {
        j = j + 1;
    }
    j
}

fn capital_of(c: char) -> (r: char)
    ensures
        r == capital(c),
{
    if c == 'a' { 'A' }
    else if c == 'e' { 'E' }
    else if c == 'f' { 'F' }
    else if c == 'i' { 'I' }
    else if c == 'n' { 'N' }
    else if c == 't' { 'T' }
    else if c == 'y' { 'Y' }
    else { c }
}

/// Whether `t` spells the lower-case word `w`.
pub fn spells_word(t: &[char], w: &[char]) -> (r: bool)
    ensures
        r == spells(t@, w@),
{
    if t.len() != w.len() {
        return false;
    }
    let mut k: usize = 0;
    while k < t.len()
        invariant
            t@.len() == w@.len(),
            k <= t@.len(),
            forall|j: int| 0 <= j < k ==> #[trigger] t@[j] == w@[j] || t@[j] == capital(w@[j]),
        decreases t@.len() - k,
    {
        if !(t[k] == w[k] || t[k] == capital_of(w[k])) {
            return false;
        }
        k = k + 1;
    }
    true
}

/// Whether `x` is an exponent.
pub fn is_exponent_text(x: &[char]) -> (r: bool)
    ensures
        r == exponent_text(x@),
{
    if x.len() == 0 || !(x[0] == 'e' || x[0] == 'E') {
        return false;
    }
    let k: usize = if x.len() > 1 && (x[1] == '+' || x[1] == '-') { 2 } else { 1 };
    k < x.len() && digits_from(x, k) == x.len()
}

/// Whether `b` is a decimal number without its sign.
pub fn is_decimal_text(b: &[char]) -> (r: bool)
    ensures
        r == decimal_text(b@),
{
    let d = digits_from(b, 0);
    proof {
        lemma_run_end(b@, 0, CharClass::Digit);
    }
    let dot = d < b.len() && b[d] == '.';
    let m = if dot { digits_from(b, d + 1) } else { d };
    proof {
        if dot {
            lemma_run_end(b@, d + 1, CharClass::Digit);
        }
    }
    let enough = if dot { m > 1 } else { m > 0 };
    if !enough {
        return false;
    }
    if m == b.len() {
        return true;
    }
    let x = copy_chars(b, m, b.len());
    is_exponent_text(&x)
}

/// Whether std reads `s` as a floating-point number.
pub fn is_float_text(s: &[char]) -> (r: bool)
    ensures
        r == float_text(s@),
{
    let signed = s.len() > 0 && (s[0] == '+' || s[0] == '-');
    let b = if signed { copy_chars(s, 1, s.len()) } else { copy_chars(s, 0, s.len()) };
    proof {
        if signed {
            assert(b@ =~= s@.drop_first());
        } else {
            assert(b@ =~= s@);
        }
    }
    let inf = str_to_chars("inf");
    let infinity = str_to_chars("infinity");
    let nan = str_to_chars("nan");
    spells_word(&b, &inf) || spells_word(&b, &infinity) || spells_word(&b, &nan) || is_decimal_text(
        &b,
    )
}

} // verus!
