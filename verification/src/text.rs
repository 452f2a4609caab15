//! Text helpers: moving between `String` and character vectors, decimal
//! integer literals, and the escape rule for string literals.
//!
//! All character-level logic is verified over `Vec<char>`; the only trusted
//! items are the bridges to `String` and the two standard decimal
//! conversions, each stated exactly.
use vstd::prelude::*;

verus! {

/// Relies on str::chars: yields exactly the string's characters in order.
#[verifier::external_body]
pub fn string_to_chars(s: &str) -> (r: Vec<char>)
    ensures
        r@ == s@,
{
    s.chars().collect()
}

/// Relies on String::from_iter over chars: the string of exactly those
/// characters, in order.
#[verifier::external_body]
pub fn chars_to_string(v: &Vec<char>) -> (r: String)
    ensures
        r@ == v@,
{
    v.iter().collect()
}

/// Append the characters of `s` to `out`.
pub fn push_chars(out: &mut Vec<char>, s: &str)
    ensures
        final(out)@ == old(out)@ + s@,
{
    let cs = string_to_chars(s);
    let mut i: usize = 0;
    while i < cs.len()
        invariant
            i <= cs@.len(),
            cs@ == s@,
            out@ == old(out)@ + cs@.subrange(0, i as int),
        decreases cs@.len() - i,
    {
        out.push(cs[i]);
        i += 1;
        proof {
            assert(out@ =~= old(out)@ + cs@.subrange(0, i as int));
        }
    }
    proof {
        assert(old(out)@ + cs@.subrange(0, cs@.len() as int) =~= old(out)@ + s@);
    }
}

pub open spec fn is_digit(c: char) -> bool {
    '0' <= c && c <= '9'
}

pub open spec fn all_digits(s: Seq<char>) -> bool {
    forall|i: int| 0 <= i < s.len() ==> is_digit(#[trigger] s[i])
}

/// Value of a non-empty digit string, most significant digit first.
pub open spec fn digits_val(s: Seq<char>) -> int
    decreases s.len(),
{
    if s.len() == 0 {
        0
    } else {
        digits_val(s.drop_last()) * 10 + (s.last() as int - '0' as int)
    }
}

/// The digit part of an integer literal, past any single leading sign.
pub open spec fn int_body(s: Seq<char>) -> Seq<char> {
    if s.len() > 0 && (s[0] == '+' || s[0] == '-') {
        s.skip(1)
    } else {
        s
    }
}

/// An optionally signed, non-empty, all-decimal-digit string.
pub open spec fn is_int_literal(s: Seq<char>) -> bool {
    int_body(s).len() > 0 && all_digits(int_body(s))
}

/// The signed value of an integer literal.
pub open spec fn int_lit_val(s: Seq<char>) -> int {
    if s.len() > 0 && s[0] == '-' {
        -digits_val(int_body(s))
    } else {
        digits_val(int_body(s))
    }
}

/// What parsing a 64-bit signed integer from text yields: the literal's
/// value when the text is a well-formed literal that fits, nothing otherwise.
pub open spec fn spec_parse_i64(s: Seq<char>) -> Option<i64> {
    if is_int_literal(s) && i64::MIN <= int_lit_val(s) <= i64::MAX {
        Some(int_lit_val(s) as i64)
    } else {
        None
    }
}

/// Digit strings have non-negative value.
proof fn lemma_digits_val_nonneg(s: Seq<char>)
    requires
        all_digits(s),
    ensures
        digits_val(s) >= 0,
    decreases s.len(),
{
    if s.len() > 0 {
        assert(forall|i: int| 0 <= i < s.len() - 1 ==> s.drop_last()[i] == s[i]);
        lemma_digits_val_nonneg(s.drop_last());
    }
}

/// A digit string is worth at least any of its prefixes.
proof fn lemma_digits_val_prefix(s: Seq<char>, k: int)
    requires
        all_digits(s),
        0 <= k <= s.len(),
    ensures
        digits_val(s.subrange(0, k)) <= digits_val(s),
    decreases s.len() - k,
{
    assert(forall|j: int, m: int|
        0 <= m <= s.len() && 0 <= j < m ==> s.subrange(0, m)[j] == s[j]);
    if k < s.len() {
        let shorter = s.subrange(0, k);
        let longer = s.subrange(0, k + 1);
        assert(longer.drop_last() =~= shorter);
        assert(longer.last() == s[k]);
        assert(all_digits(shorter));
        lemma_digits_val_nonneg(shorter);
        assert(digits_val(longer) == digits_val(shorter) * 10 + (s[k] as int - '0' as int));
        assert(digits_val(shorter) <= digits_val(longer));
        lemma_digits_val_prefix(s, k + 1);
    } else {
        assert(s.subrange(0, k) =~= s);
    }
}

/// Parse a 64-bit signed integer: exactly an optionally signed, non-empty
/// decimal digit string whose value fits in the type.
pub fn parse_i64(s: &str) -> (r: Option<i64>)
    ensures
        r == spec_parse_i64(s@),
{
    let cs = string_to_chars(s);
    let n = cs.len();
    if n == 0 {
        return None;
    }
    let neg = cs[0] == '-';
    let start: usize = if cs[0] == '-' || cs[0] == '+' {
        1
    } else {
        0
    };
    if start >= n {
        return None;
    }
    let ghost body = int_body(cs@);
    proof {
        assert(cs@.skip(0) =~= cs@);
        assert(body == cs@.skip(start as int));
        assert(body.subrange(0, 0) =~= Seq::<char>::empty());
    }
    // the value is accumulated as its negation, which covers the whole range
    let mut acc: i64 = 0;
    let mut i: usize = start;
    while i < n
        invariant
            cs@ == s@,
            cs@.len() == n,
            n >= 1,
            start <= i <= n,
            start == 1 <==> (cs@[0] == '-' || cs@[0] == '+'),
            start <= 1,
            neg == (cs@[0] == '-'),
            body == int_body(cs@),
            body == cs@.skip(start as int),
            body.len() == n - start,
            all_digits(body.subrange(0, i - start)),
            acc == -digits_val(body.subrange(0, i - start)),
        decreases n - i,
    {
        let c = cs[i];
        proof {
            assert(body[i - start] == cs@[i as int]);
        }
        if !('0' <= c && c <= '9') {
            proof {
                assert(!is_digit(body[i - start]));
                assert(!all_digits(body));
                assert(!is_int_literal(cs@));
            }
            return None;
        }
        let d = (c as u32 - '0' as u32) as i64;
        let ghost consumed = body.subrange(0, i - start);
        let ghost extended = body.subrange(0, i - start + 1);
        proof {
            assert(extended.drop_last() =~= consumed);
            assert(extended.last() == body[i - start]);
            assert(digits_val(extended) == digits_val(consumed) * 10 + (c as int - '0' as int));
            assert(forall|j: int| 0 <= j < extended.len() ==> extended[j] == body[j]);
        }
        let stepped = match acc.checked_mul(10) {
            Some(x) => x.checked_sub(d),
            None => None,
        };
        match stepped {
            Some(y) => {
                acc = y;
            },
            None => {
                // the digits consumed so far already exceed the type's range
                proof {
                    lemma_digits_val_nonneg(consumed);
                    assert(acc <= 0);
                    assert(d as int == c as int - '0' as int);
                    assert(0 <= d <= 9);
                    assert(digits_val(extended) > 0x8000_0000_0000_0000int);
                    if all_digits(body) {
                        lemma_digits_val_prefix(body, i - start + 1);
                        assert(digits_val(body) > 0x8000_0000_0000_0000int);
                        assert(!(i64::MIN <= int_lit_val(cs@) <= i64::MAX));
                    }
                    assert(spec_parse_i64(cs@) is None);
                }
                return None;
            },
        }
        i += 1;
        proof {
            assert(all_digits(body.subrange(0, i - start)));
            assert(acc == -digits_val(body.subrange(0, i - start)));
        }
    }
    proof {
        assert(body.subrange(0, n - start) =~= body);
        assert(all_digits(body));
        assert(is_int_literal(cs@));
        lemma_digits_val_nonneg(body);
    }
    if neg {
        proof {
            assert(int_lit_val(cs@) == acc as int);
        }
        Some(acc)
    } else {
        if acc == i64::MIN {
            proof {
                assert(int_lit_val(cs@) > i64::MAX);
            }
            None
        } else {
            proof {
                assert(int_lit_val(cs@) == -(acc as int));
            }
            Some(-acc)
        }
    }
}

pub open spec fn digit_char(d: int) -> char {
    seq!['0', '1', '2', '3', '4', '5', '6', '7', '8', '9'][d]
}

/// Decimal digits of a non-negative number, most significant first.
pub open spec fn dec_digits(n: int) -> Seq<char>
    decreases n,
{
    if n < 0 {
        Seq::empty()
    } else if n < 10 {
        seq![digit_char(n)]
    } else {
        dec_digits(n / 10).push(digit_char(n % 10))
    }
}

/// Decimal rendering of a signed number.
pub open spec fn int_dec(i: int) -> Seq<char> {
    if i < 0 {
        seq!['-'] + dec_digits(-i)
    } else {
        dec_digits(i)
    }
}

/// The character of one decimal digit.
fn digit_char_of(d: u64) -> (c: char)
    requires
        d < 10,
    ensures
        c == digit_char(d as int),
{
    let c = if d == 0 {
        '0'
    } else if d == 1 {
        '1'
    } else if d == 2 {
        '2'
    } else if d == 3 {
        '3'
    } else if d == 4 {
        '4'
    } else if d == 5 {
        '5'
    } else if d == 6 {
        '6'
    } else if d == 7 {
        '7'
    } else if d == 8 {
        '8'
    } else {
        '9'
    };
    proof {
        assert(seq!['0', '1', '2', '3', '4', '5', '6', '7', '8', '9'][d as int] == c);
    }
    c
}

/// Append the decimal digits of a non-negative number.
fn push_dec_digits(n: u64, out: &mut Vec<char>)
    ensures
        final(out)@ == old(out)@ + dec_digits(n as int),
    decreases n,
{
    if n < 10 {
        out.push(digit_char_of(n));
        proof {
            assert(final(out)@ =~= old(out)@ + dec_digits(n as int));
        }
    } else {
        push_dec_digits(n / 10, out);
        out.push(digit_char_of(n % 10));
        proof {
            assert(final(out)@ =~= old(out)@ + dec_digits(n as int));
        }
    }
}

/// The decimal rendering of a signed number: digits with a leading '-' for
/// negative numbers.
pub fn int_to_string(i: i64) -> (r: String)
    ensures
        r@ == int_dec(i as int),
{
    let mut out: Vec<char> = Vec::new();
    if i < 0 {
        out.push('-');
        let magnitude: u64 = if i == i64::MIN {
            9223372036854775808u64
        } else {
            (-i) as u64
        };
        proof {
            assert(magnitude as int == -(i as int));
            assert(out@ =~= Seq::<char>::empty() + seq!['-']);
        }
        push_dec_digits(magnitude, &mut out);
        proof {
            assert(out@ =~= int_dec(i as int));
        }
    } else {
        push_dec_digits(i as u64, &mut out);
        proof {
            assert(out@ =~= int_dec(i as int));
        }
    }
    chars_to_string(&out)
}

/// The escape rule applied to string literal text: each backslash-n pair
/// becomes a newline, scanning left to right.
pub open spec fn unescape(s: Seq<char>) -> Seq<char>
    decreases s.len(),
{
    if s.len() == 0 {
        Seq::empty()
    } else if s.len() >= 2 && s[0] == '\\' && s[1] == 'n' {
        seq!['\n'] + unescape(s.skip(2))
    } else {
        seq![s[0]] + unescape(s.skip(1))
    }
}

/// Unescaping a non-empty text yields a non-empty text.
pub proof fn lemma_unescape_nonempty(s: Seq<char>)
    requires
        s.len() >= 1,
    ensures
        unescape(s).len() >= 1,
    decreases s.len(),
{
}

/// Apply the escape rule to a character vector.
pub fn unescape_chars(v: &Vec<char>) -> (r: Vec<char>)
    ensures
        r@ == unescape(v@),
{
    let mut out: Vec<char> = Vec::new();
    let mut i: usize = 0;
    proof {
        assert(v@.skip(0) =~= v@);
        assert(out@ + unescape(v@) =~= unescape(v@));
    }
    while i < v.len()
        invariant
            i <= v@.len(),
            unescape(v@) == out@ + unescape(v@.skip(i as int)),
        decreases v@.len() - i,
    {
        proof {
            assert(v@.skip(i as int)[0] == v@[i as int]);
            if i + 1 < v@.len() {
                assert(v@.skip(i as int)[1] == v@[i + 1]);
            }
        }
        if v[i] == '\\' && i + 1 < v.len() && v[i + 1] == 'n' {
            out.push('\n');
            proof {
                assert(v@.skip(i as int).skip(2) =~= v@.skip(i + 2));
                assert(unescape(v@.skip(i as int)) =~= seq!['\n'] + unescape(v@.skip(i + 2)));
            }
            i += 2;
            proof {
                assert(unescape(v@) =~= out@ + unescape(v@.skip(i as int)));
            }
        } else {
            out.push(v[i]);
            proof {
                assert(v@.skip(i as int).skip(1) =~= v@.skip(i + 1));
                assert(unescape(v@.skip(i as int)) =~= seq![v@[i as int]] + unescape(
                    v@.skip(i + 1),
                ));
            }
            i += 1;
            proof {
                assert(unescape(v@) =~= out@ + unescape(v@.skip(i as int)));
            }
        }
    }
    proof {
        assert(v@.skip(v@.len() as int) =~= Seq::<char>::empty());
        assert(out@ =~= unescape(v@));
    }
    out
}

} // verus!
