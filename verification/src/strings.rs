//! Path-segment helpers: device-name normalization and decimal
//! rendering of array indices.

use vstd::prelude::*;

verus! {

/// What `str::to_lowercase` returns for a given character sequence.
pub uninterp spec fn lower_of(s: Seq<char>) -> Seq<char>;

/// Relies on `str::to_lowercase`: the result is a function of the
/// characters alone, and an empty string stays empty.
#[verifier::external_body]
pub(crate) fn lowercase(s: &str) -> (r: String)
    ensures
        r@ == lower_of(s@),
        s@.len() == 0 ==> r@.len() == 0,
{
    s.to_lowercase()
}

/// Relies on `str`'s `PartialEq`: equal exactly when the characters are.
#[verifier::external_body]
pub(crate) fn str_eq(a: &str, b: &str) -> (r: bool)
    ensures
        r == (a@ == b@),
{
    a == b
}

/// Relies on `String::from_iter`: collects exactly the given characters.
#[verifier::external_body]
pub(crate) fn chars_to_string(cs: &Vec<char>) -> (r: String)
    ensures
        r@ == cs@,
{
    cs.iter().collect()
}

/// Spaces replaced by underscores, character by character.
pub open spec fn underscored(s: Seq<char>) -> Seq<char> {
    Seq::new(s.len(), |i: int| if s[i] == ' ' { '_' } else { s[i] })
}

/// The normal form of a device or scene name as it appears in a
/// namespace path: lowercased, with spaces replaced by underscores.
pub open spec fn normalized(s: Seq<char>) -> Seq<char> {
    underscored(lower_of(s))
}

/// Normalizes a name for use as a namespace path segment.
pub fn name_to_evalexpr(name: &str) -> (r: String)
    ensures
        r@ == normalized(name@),
{
    let low: String = lowercase(name);
    let ls: &str = low.as_str();
    let n: usize = ls.unicode_len();
    let mut out: Vec<char> = Vec::new();
    let mut i: usize = 0;
    #[verifier::loop_isolation(false)]
    while i < n
        invariant
            i <= n,
            n == low@.len(),
            out@ =~= underscored(low@).subrange(0, i as int),
        decreases n - i,
    {
        let c: char = ls.get_char(i);
        if c == ' ' {
            out.push('_');
        } else {
            out.push(c);
        }
        proof {
            assert(out@ =~= underscored(low@).subrange(0, i + 1));
        }
        i = i + 1;
    }
    proof {
        assert(out@ =~= underscored(low@));
    }
    chars_to_string(&out)
}

/// Lexicographic order on character sequences, by code point.  For
/// strings this agrees with the byte order `str`'s comparison uses,
/// since UTF-8 preserves code-point order.
pub open spec fn seq_char_le(a: Seq<char>, b: Seq<char>) -> bool
    decreases a.len(),
{
    if a.len() == 0 {
        true
    } else if b.len() == 0 {
        false
    } else if (a[0] as u32) < (b[0] as u32) {
        true
    } else if (a[0] as u32) > (b[0] as u32) {
        false
    } else {
        seq_char_le(a.subrange(1, a.len() as int), b.subrange(1, b.len() as int))
    }
}

/// The character for one decimal digit.
pub open spec fn digit_char(d: int) -> char {
    if d == 0 { '0' }
    else if d == 1 { '1' }
    else if d == 2 { '2' }
    else if d == 3 { '3' }
    else if d == 4 { '4' }
    else if d == 5 { '5' }
    else if d == 6 { '6' }
    else if d == 7 { '7' }
    else if d == 8 { '8' }
    else { '9' }
}

/// The decimal rendering of a natural number, most significant digit
/// first.
pub open spec fn dec_str(n: int) -> Seq<char>
    decreases n,
{
    if n < 10 {
        seq![digit_char(n)]
    } else {
        dec_str(n / 10).push(digit_char(n % 10))
    }
}

fn digit_char_exec(d: usize) -> (r: char)
    requires
        d < 10,
    ensures
        r == digit_char(d as int),
{
    match d {
        0 => '0',
        1 => '1',
        2 => '2',
        3 => '3',
        4 => '4',
        5 => '5',
        6 => '6',
        7 => '7',
        8 => '8',
        _ => '9',
    }
}

/// Renders an array index as its decimal path segment.
pub fn usize_to_string(n: usize) -> (r: String)
    ensures
        r@ == dec_str(n as int),
{
    let mut digits: Vec<char> = Vec::new();
    let mut m: usize = n;
    let mut done: bool = false;
    #[verifier::loop_isolation(false)]
    while !done
        invariant
            done ==> dec_str(n as int) =~= digits@.reverse(),
            !done ==> dec_str(n as int) =~= dec_str(m as int) + digits@.reverse(),
        decreases m + (if done { 0int } else { 1int }),
    {
        let ghost m0: int = m as int;
        let d: usize = m % 10;
        let c: char = digit_char_exec(d);
        digits.push(c);
        m = m / 10;
        proof {
            assert(digits@.reverse() =~= seq![c] + digits@.drop_last().reverse());
            if m0 < 10 {
                assert((m as int) == 0) by (nonlinear_arith)
                    requires m0 < 10, m0 >= 0, m as int == m0 / 10;
                assert(dec_str(m0) =~= seq![digit_char(m0)]);
                assert(dec_str(n as int) =~= digits@.reverse());
            } else {
                assert(0 < (m as int) && (m as int) < m0) by (nonlinear_arith)
                    requires m0 >= 10, m as int == m0 / 10;
                assert(dec_str(m0) =~= dec_str(m0 / 10).push(digit_char(m0 % 10)));
                assert(dec_str(m0) + digits@.drop_last().reverse()
                    =~= dec_str(m as int) + digits@.reverse());
            }
        }
        if m == 0 {
            done = true;
        }
    }
    let k: usize = digits.len();
    let mut out: Vec<char> = Vec::new();
    let mut j: usize = k;
    #[verifier::loop_isolation(false)]
    while j > 0
        invariant
            j <= k,
            k == digits@.len(),
            out@ =~= digits@.reverse().subrange(0, (k - j) as int),
        decreases j,
    {
        j = j - 1;
        let c: char = digits[j];
        out.push(c);
        proof {
            assert(out@ =~= digits@.reverse().subrange(0, (k - j) as int));
        }
    }
    proof {
        assert(out@ =~= digits@.reverse());
    }
    chars_to_string(&out)
}

} // verus!
