//! Character-sequence helpers: lexicographic order, fixed-width decimal
//! rendering, and string building.

use vstd::prelude::*;

verus! {

pub open spec fn char_lt(a: char, b: char) -> bool {
    (a as u32) < (b as u32)
}

/// Lexicographic order on character sequences, by code point.
pub open spec fn lex_lt(a: Seq<char>, b: Seq<char>) -> bool
    decreases a.len(),
{
    if b.len() == 0 {
        false
    } else if a.len() == 0 {
        true
    } else if a[0] != b[0] {
        char_lt(a[0], b[0])
    } else {
        lex_lt(a.skip(1), b.skip(1))
    }
}

/// Concatenations whose left parts have equal length compare left part first,
/// then right part.
pub proof fn lemma_lex_lt_parts(a: Seq<char>, b: Seq<char>, x: Seq<char>, y: Seq<char>)
    requires
        a.len() == b.len(),
    ensures
        lex_lt(a + x, b + y) <==> (lex_lt(a, b) || (a == b && lex_lt(x, y))),
    decreases a.len(),
{
    if a.len() == 0 {
        assert(a + x =~= x);
        assert(b + y =~= y);
        assert(a =~= b);
    } else {
        assert((a + x)[0] == a[0]);
        assert((b + y)[0] == b[0]);
        if a[0] == b[0] {
            assert((a + x).skip(1) =~= a.skip(1) + x);
            assert((b + y).skip(1) =~= b.skip(1) + y);
            lemma_lex_lt_parts(a.skip(1), b.skip(1), x, y);
            assert(a == b <==> a.skip(1) == b.skip(1)) by {
                if a.skip(1) == b.skip(1) {
                    assert forall|i: int| 0 <= i < a.len() implies a[i] == b[i] by {
                        if i >= 1 {
                            assert(a[i] == a.skip(1)[i - 1]);
                            assert(b[i] == b.skip(1)[i - 1]);
                        }
                    }
                    assert(a =~= b);
                }
            }
        } else {
            assert(a != b) by {
                assert(a[0] != b[0]);
            }
        }
    }
}

/// The decimal digit `n`, as a character.
pub open spec fn spec_digit(n: int) -> char {
    if n == 0 {
        '0'
    } else if n == 1 {
        '1'
    } else if n == 2 {
        '2'
    } else if n == 3 {
        '3'
    } else if n == 4 {
        '4'
    } else if n == 5 {
        '5'
    } else if n == 6 {
        '6'
    } else if n == 7 {
        '7'
    } else if n == 8 {
        '8'
    } else {
        '9'
    }
}

/// `n` in decimal, two digits, zero padded.
pub open spec fn spec_dec2(n: int) -> Seq<char> {
    seq![spec_digit(n / 10), spec_digit(n % 10)]
}

/// `n` in decimal, four digits, zero padded.
pub open spec fn spec_dec4(n: int) -> Seq<char> {
    spec_dec2(n / 100) + spec_dec2(n % 100)
}

proof fn lemma_digit_code(n: int)
    requires
        0 <= n <= 9,
    ensures
        spec_digit(n) as u32 == 48 + n,
{
}

/// Two-digit rendering preserves order and distinctness.
pub proof fn lemma_dec2_order(n1: int, n2: int)
    requires
        0 <= n1 < 100,
        0 <= n2 < 100,
    ensures
        lex_lt(spec_dec2(n1), spec_dec2(n2)) <==> n1 < n2,
        spec_dec2(n1) == spec_dec2(n2) <==> n1 == n2,
{
    let q1 = n1 / 10;
    let r1 = n1 % 10;
    let q2 = n2 / 10;
    let r2 = n2 % 10;
    lemma_digit_code(q1);
    lemma_digit_code(r1);
    lemma_digit_code(q2);
    lemma_digit_code(r2);
    assert(n1 == 10 * q1 + r1);
    assert(n2 == 10 * q2 + r2);
    let s1 = spec_dec2(n1);
    let s2 = spec_dec2(n2);
    assert(s1.skip(1) =~= seq![spec_digit(r1)]);
    assert(s2.skip(1) =~= seq![spec_digit(r2)]);
    assert(lex_lt(s1, s2) <==> (char_lt(s1[0], s2[0]) || (s1[0] == s2[0] && char_lt(
        s1[1],
        s2[1],
    )))) by {
        reveal_with_fuel(lex_lt, 3);
        assert(s1.skip(1).skip(1) =~= Seq::<char>::empty());
    }
    if s1 == s2 {
        assert(spec_digit(q1) == spec_digit(q2));
        assert(spec_digit(q1) as u32 == spec_digit(q2) as u32);
    }
    if n1 == n2 {
        assert(s1 =~= s2);
    }
}

/// Four-digit rendering preserves order and distinctness.
pub proof fn lemma_dec4_order(n1: int, n2: int)
    requires
        0 <= n1 < 10000,
        0 <= n2 < 10000,
    ensures
        lex_lt(spec_dec4(n1), spec_dec4(n2)) <==> n1 < n2,
        spec_dec4(n1) == spec_dec4(n2) <==> n1 == n2,
{
    let q1 = n1 / 100;
    let r1 = n1 % 100;
    let q2 = n2 / 100;
    let r2 = n2 % 100;
    assert(n1 == 100 * q1 + r1);
    assert(n2 == 100 * q2 + r2);
    lemma_dec2_order(q1, q2);
    lemma_dec2_order(r1, r2);
    lemma_lex_lt_parts(spec_dec2(q1), spec_dec2(q2), spec_dec2(r1), spec_dec2(r2));
    if spec_dec4(n1) == spec_dec4(n2) {
        assert(spec_dec2(q1) =~= spec_dec4(n1).subrange(0, 2));
        assert(spec_dec2(q2) =~= spec_dec4(n2).subrange(0, 2));
        assert(spec_dec2(r1) =~= spec_dec4(n1).subrange(2, 4));
        assert(spec_dec2(r2) =~= spec_dec4(n2).subrange(2, 4));
    }
}

/// Relies on `String::push_str`: appends the slice's characters to the
/// string.
#[verifier::external_body]
pub fn push_str(s: &mut String, t: &str)
    ensures
        final(s)@ == old(s)@ + t@,
{
    s.push_str(t);
}

/// Relies on `String::push`: appends the character to the string.
#[verifier::external_body]
pub fn push_char(s: &mut String, c: char)
    ensures
        final(s)@ == old(s)@.push(c),
{
    s.push(c);
}

fn digit_char(n: u32) -> (c: char)
    requires
        n < 10,
    ensures
        c == spec_digit(n as int),
{
    match n {
        0 => '0',
        1 => '1',
        2 => '2',
        3 => '3',
        4 => '4',
        5 => '5',
        6 => '6',
        7 => '7',
        8 => '8',
        _ => '9',
    }
}

/// Append `n` as two zero-padded decimal digits.
pub fn push_dec2(s: &mut String, n: u32)
    requires
        n < 100,
    ensures
        final(s)@ == old(s)@ + spec_dec2(n as int),
{
    let hi = digit_char(n / 10);
    let lo = digit_char(n % 10);
    push_char(s, hi);
    push_char(s, lo);
    proof {
        assert(s@ =~= old(s)@ + spec_dec2(n as int));
    }
}

/// Append `n` as four zero-padded decimal digits.
pub fn push_dec4(s: &mut String, n: u32)
    requires
        n < 10000,
    ensures
        final(s)@ == old(s)@ + spec_dec4(n as int),
{
    push_dec2(s, n / 100);
    push_dec2(s, n % 100);
    proof {
        assert(s@ =~= old(s)@ + spec_dec4(n as int));
    }
}

} // verus!
