use vstd::prelude::*;

verus! {

/// Append a character to a string
#[verifier::external_body]
pub(crate) fn push_char(s: &mut String, c: char)
    ensures
        final(s)@ == old(s)@.push(c),
{
    s.push(c)
}

/// Append a string slice to a string
#[verifier::external_body]
pub(crate) fn push_str(s: &mut String, t: &str)
    ensures
        final(s)@ == old(s)@ + t@,
{
    s.push_str(t)
}

/// Copy a string slice into a new string
pub(crate) fn to_text(t: &str) -> (s: String)
    ensures
        s@ == t@,
{
    let mut s = String::new();
    push_str(&mut s, t);
    assert(s@ =~= t@);
    s
}

/// The characters of a string slice
pub(crate) fn chars_of(t: &str) -> (v: Vec<char>)
    ensures
        v@ == t@,
{
    let mut v: Vec<char> = Vec::new();
    for c in it: t.chars()
        invariant
            v@ == it.seq().take(it.index()),
    {
        proof {
            assert(it.seq().take(it.index() + 1) == v@.push(c));
        }
        v.push(c);
    }
    v
}

/// The decimal digit character of `d`
pub open spec fn digit_char(d: nat) -> char {
    if d == 0 { '0' }
    else if d == 1 { '1' }
    else if d == 2 { '2' }
    else if d == 3 { '3' }
    else if d == 4 { '4' }
    else if d == 5 { '5' }
    else if d == 6 { '6' }
    else if d == 7 { '7' }
    else if d == 8 { '8' }
    else { '9' }
}

/// The decimal digits of a natural number, most significant first, without leading zeros
pub open spec fn decimal_digits(n: nat) -> Seq<char>
    decreases n,
{
    if n < 10 {
        seq![digit_char(n)]
    } else {
        decimal_digits(n / 10).push(digit_char(n % 10))
    }
}

/// The decimal text of an integer, as `Display` writes it
pub open spec fn decimal_text(i: int) -> Seq<char> {
    if i < 0 {
        seq!['-'] + decimal_digits((-i) as nat)
    } else {
        decimal_digits(i as nat)
    }
}

fn digit(d: u128) -> (c: char)
    requires
        d < 10,
    ensures
        c == digit_char(d as nat),
{
    if d == 0 { '0' }
    else if d == 1 { '1' }
    else if d == 2 { '2' }
    else if d == 3 { '3' }
    else if d == 4 { '4' }
    else if d == 5 { '5' }
    else if d == 6 { '6' }
    else if d == 7 { '7' }
    else if d == 8 { '8' }
    else { '9' }
}

/// The decimal digits of `n`
fn natural_text(n: u128) -> (s: Vec<char>)
    ensures
        s@ == decimal_digits(n as nat),
    decreases n,
{
    if n < 10 {
        let mut s: Vec<char> = Vec::new();
        s.push(digit(n));
        s
    } else {
        let mut s = natural_text(n / 10);
        s.push(digit(n % 10));
        s
    }
}

/// Format an integer in decimal
pub fn integer_text(i: i128) -> (s: String)
    ensures
        s@ == decimal_text(i as int),
{
    let mut s = String::new();
    let magnitude: u128 = if i < 0 {
        if i == i128::MIN {
            170141183460469231731687303715884105728u128
        } else {
            (-i) as u128
        }
    } else {
        i as u128
    };
    if i < 0 {
        push_char(&mut s, '-');
    }
    let digits = natural_text(magnitude);
    let ghost start = s@;
    let mut k: usize = 0;
    while k < digits.len()
        invariant
            k <= digits.len(),
            s@ == start + digits@.take(k as int),
        decreases digits.len() - k,
    {
        push_char(&mut s, digits[k]);
        assert(digits@.take(k + 1) == digits@.take(k as int).push(digits@[k as int]));
        k = k + 1;
    }
    assert(digits@.take(digits.len() as int) == digits@);
    proof {
        if i < 0 {
            assert(start =~= seq!['-']);
        } else {
            assert(start =~= Seq::<char>::empty());
        }
    }
    s
}

/// The value of a decimal digit character, if it is one
pub open spec fn digit_value(c: char) -> Option<nat> {
    if '0' <= c && c <= '9' {
        Some((c as nat - '0' as nat) as nat)
    } else {
        None
    }
}

/// Whether every character is a decimal digit
pub open spec fn all_digits(s: Seq<char>) -> bool {
    forall|i: int| 0 <= i < s.len() ==> #[trigger] digit_value(s[i]) is Some
}

/// The number that decimal digits denote
pub open spec fn digits_value(s: Seq<char>) -> nat
    decreases s.len(),
{
    if s.len() == 0 {
        0
    } else {
        digits_value(s.drop_last()) * 10 + digit_value(s.last()).unwrap_or(0)
    }
}

/// The integer that a text denotes as `str::parse` reads a signed integer:
/// an optional sign followed by one or more decimal digits
pub open spec fn parsed_integer(s: Seq<char>) -> Option<int> {
    if s.len() > 0 && (s[0] == '-' || s[0] == '+') {
        let rest = s.drop_first();
        if rest.len() > 0 && all_digits(rest) {
            if s[0] == '-' {
                Some(-(digits_value(rest) as int))
            } else {
                Some(digits_value(rest) as int)
            }
        } else {
            None
        }
    } else if s.len() > 0 && all_digits(s) {
        Some(digits_value(s) as int)
    } else {
        None
    }
}

/// The decimal digits of a number are digits, one or more, and denote the number
proof fn lemma_decimal_digits(n: nat)
    ensures
        decimal_digits(n).len() > 0,
        all_digits(decimal_digits(n)),
        digits_value(decimal_digits(n)) == n,
    decreases n,
{
    if n < 10 {
        let s = decimal_digits(n);
        assert(digit_value(s[0]) == Some(n));
        assert(s.drop_last() =~= Seq::<char>::empty());
        assert(s.last() == s[0]);
        assert(digits_value(s) == digits_value(s.drop_last()) * 10 + n);
    } else {
        lemma_decimal_digits(n / 10);
        let s = decimal_digits(n);
        let p = decimal_digits(n / 10);
        assert(s.drop_last() =~= p);
        assert(digit_value(digit_char(n % 10)) == Some(n % 10));
        assert(s.last() == digit_char(n % 10));
        assert(digits_value(s) == digits_value(p) * 10 + n % 10);
        assert forall|i: int| 0 <= i < s.len() implies #[trigger] digit_value(s[i]) is Some by {
            if i < p.len() {
                assert(s[i] == p[i]);
            }
        }
        assert((n / 10) * 10 + n % 10 == n) by (nonlinear_arith);
    }
}

/// Law: reading back the decimal text of an integer gives the integer
pub proof fn law_integer_text_round_trip(i: int)
    ensures
        parsed_integer(decimal_text(i)) == Some(i),
{
    if i < 0 {
        let m = (-i) as nat;
        lemma_decimal_digits(m);
        let s = decimal_text(i);
        assert(s.drop_first() =~= decimal_digits(m));
        assert(s[0] == '-');
    } else {
        let d = decimal_digits(i as nat);
        lemma_decimal_digits(i as nat);
        assert(digit_value(d[0]) is Some);
    }
}

/// Read a 64-bit signed integer from text, as `str::parse::<i64>` does
pub fn parse_i64(s: &str) -> (r: Option<i64>)
    ensures
        r == (match parsed_integer(s@) {
            Some(v) => if i64::MIN <= v <= i64::MAX { Some(v as i64) } else { None },
            None => None,
        }),
{
    let cs = chars_of(s);
    let n = cs.len();
    if n == 0 {
        return None;
    }
    let neg = cs[0] == '-';
    let start: usize = if cs[0] == '-' || cs[0] == '+' { 1 } else { 0 };
    if start == n {
        return None;
    }
    let ghost digits = cs@.subrange(start as int, n as int);
    proof {
        if start == 1 {
            assert(digits =~= cs@.drop_first());
        } else {
            assert(digits =~= cs@);
        }
    }
    // The magnitude is accumulated, capped one past the largest magnitude of an i64
    let cap: u128 = 9223372036854775809u128;
    let mut acc: u128 = 0;
    let mut k: usize = start;
    while k < n
        invariant
            start <= k <= n,
            n == cs@.len(),
            cap == 9223372036854775809u128,
            cs@ == s@,
            start <= 1,
            n > 0,
            start == 1 ==> digits == cs@.drop_first() && (cs@[0] == '-' || cs@[0] == '+'),
            start == 0 ==> digits == cs@ && !(cs@[0] == '-' || cs@[0] == '+'),
            digits == cs@.subrange(start as int, n as int),
            all_digits(cs@.subrange(start as int, k as int)),
            acc <= cap,
            acc == (if digits_value(cs@.subrange(start as int, k as int)) < cap {
                digits_value(cs@.subrange(start as int, k as int))
            } else {
                cap as nat
            }),
        decreases n - k,
    {
        let c = cs[k];
        if c < '0' || c > '9' {
            proof {
                assert(!all_digits(digits)) by {
                    assert(digit_value(digits[k - start]) is None);
                }
                if start == 1 {
                    assert(s@.drop_first() == digits);
                } else {
                    assert(s@ == digits);
                }
                assert(parsed_integer(s@) is None);
            }
            return None;
        }
        let d: u128 = (c as u32 - '0' as u32) as u128;
        let ghost prev = cs@.subrange(start as int, k as int);
        let ghost next = cs@.subrange(start as int, k + 1);
        proof {
            assert(next.drop_last() == prev);
            assert(next.last() == c);
            assert(digits_value(next) == digits_value(prev) * 10 + d);
            assert(all_digits(next)) by {
                assert forall|i: int| 0 <= i < next.len() implies #[trigger] digit_value(next[i]) is Some by {
                    if i < prev.len() {
                        assert(next[i] == prev[i]);
                    }
                }
            }
        }
        if acc == cap || acc * 10 + d >= cap {
            proof {
                assert(digits_value(next) >= cap);
            }
            acc = cap;
        } else {
            acc = acc * 10 + d;
        }
        k = k + 1;
    }
    assert(cs@.subrange(start as int, n as int) == digits);
    if neg {
        if acc == cap {
            None
        } else if acc == cap - 1 {
            Some(i64::MIN)
        } else {
            Some(-(acc as i64))
        }
    } else {
        if acc >= cap - 1 {
            None
        } else {
            Some(acc as i64)
        }
    }
}

} // verus!
