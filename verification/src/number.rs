use vstd::prelude::*;
use crate::text::string_from_chars;

verus! {

/// The ASCII digit for `d`, where `0 <= d < 10`.
pub open spec fn digit_char(d: int) -> char {
    if d == 0 {
        '0'
    } else if d == 1 {
        '1'
    } else if d == 2 {
        '2'
    } else if d == 3 {
        '3'
    } else if d == 4 {
        '4'
    } else if d == 5 {
        '5'
    } else if d == 6 {
        '6'
    } else if d == 7 {
        '7'
    } else if d == 8 {
        '8'
    } else {
        '9'
    }
}

pub open spec fn is_digit(c: char) -> bool {
    '0' <= c && c <= '9'
}

/// The number that the ASCII digit `c` stands for.
pub open spec fn digit_value(c: char) -> int {
    c as int - '0' as int
}

/// The decimal numeral of `n`, without leading zeros.
pub open spec fn decimal(n: nat) -> Seq<char>
    decreases n,
{
    if n < 10 {
        seq![digit_char(n as int)]
    } else {
        decimal(n / 10).push(digit_char((n % 10) as int))
    }
}

/// How `Display` writes a signed integer: a minus sign for a negative value,
/// then the decimal numeral of its magnitude.
pub open spec fn signed_decimal(v: int) -> Seq<char> {
    if v < 0 {
        seq!['-'] + decimal((-v) as nat)
    } else {
        decimal(v as nat)
    }
}

pub open spec fn all_digits(s: Seq<char>) -> bool {
    forall|i: int| 0 <= i < s.len() ==> is_digit(#[trigger] s[i])
}

/// The value of a run of decimal digits.
pub open spec fn digits_value(s: Seq<char>) -> int
    decreases s.len(),
{
    if s.len() == 0 {
        0
    } else {
        digits_value(s.drop_last()) * 10 + digit_value(s.last())
    }
}

/// What `str::parse::<i32>` accepts: an optional `+` or `-`, then one or
/// more ASCII digits whose signed value lies in the range of `i32`.
pub open spec fn parse_i32_spec(s: Seq<char>) -> Option<i32> {
    let neg = s.len() > 0 && s[0] == '-';
    let body = if s.len() > 0 && (s[0] == '-' || s[0] == '+') {
        s.skip(1)
    } else {
        s
    };
    if body.len() == 0 || !all_digits(body) {
        None
    } else {
        let v = if neg {
            -digits_value(body)
        } else {
            digits_value(body)
        };
        if i32::MIN <= v <= i32::MAX {
            Some(v as i32)
        } else {
            None
        }
    }
}

fn digit_of(d: u64) -> (c: char)
    requires
        d < 10,
    ensures
        c == digit_char(d as int),
{
    if d == 0 {
        '0'
    } else if d == 1 {
        '1'
    } else if d == 2 {
        '2'
    } else if d == 3 {
        '3'
    } else if d == 4 {
        '4'
    } else if d == 5 {
        '5'
    } else if d == 6 {
        '6'
    } else if d == 7 {
        '7'
    } else if d == 8 {
        '8'
    } else {
        '9'
    }
}

fn push_decimal(out: &mut Vec<char>, n: u64)
    ensures
        final(out)@ == old(out)@ + decimal(n as nat),
    decreases n,
{
    if n >= 10 {
        push_decimal(out, n / 10);
    }
    out.push(digit_of(n % 10));
    assert(out@ =~= old(out)@ + decimal(n as nat));
}

/// The decimal numeral of `n`, as `Display` writes it.
pub fn format_u64(n: u64) -> (r: String)
    ensures
        r@ == decimal(n as nat),
{
    let mut v: Vec<char> = Vec::new();
    push_decimal(&mut v, n);
    assert(v@ =~= decimal(n as nat));
    string_from_chars(&v)
}

/// The numeral of `v`, as `Display` writes an `i32`.
pub fn format_i32(v: i32) -> (r: String)
    ensures
        r@ == signed_decimal(v as int),
{
    let mut out: Vec<char> = Vec::new();
    let mag: u64;
    if v < 0 {
        out.push('-');
        let w = v as i64;
        mag = (-w) as u64;
    } else {
        mag = v as u64;
    }
    push_decimal(&mut out, mag);
    assert(out@ =~= signed_decimal(v as int));
    string_from_chars(&out)
}

/// One more than the magnitude of any `i32`; values from it on are capped.
pub open spec fn cap() -> int {
    0x8000_0001
}

proof fn lemma_digits_value_step(s: Seq<char>, k: int)
    requires
        0 <= k < s.len(),
    ensures
        digits_value(s.take(k + 1)) == digits_value(s.take(k)) * 10 + digit_value(s[k]),
{
    assert(s.take(k + 1).drop_last() =~= s.take(k));
}

proof fn lemma_digits_value_nonneg(s: Seq<char>)
    requires
        all_digits(s),
    ensures
        digits_value(s) >= 0,
    decreases s.len(),
{
    if s.len() > 0 {
        lemma_digits_value_nonneg(s.drop_last());
    }
}

/// The value of `digits[from..]` if it is below `cap()`, else `cap()`.
fn capped_value(digits: &[char], from: usize) -> (r: i64)
    requires
        from <= digits@.len(),
        all_digits(digits@.skip(from as int)),
    ensures
        r == (if digits_value(digits@.skip(from as int)) >= cap() {
            cap()
        } else {
            digits_value(digits@.skip(from as int))
        }),
{
    let ghost body = digits@.skip(from as int);
    let n = digits.len();
    let mut acc: i64 = 0;
    let mut k: usize = from;
    assert(body.take(0) =~= Seq::<char>::empty());
    while k < n
        invariant
            from <= k <= n,
            n == digits@.len(),
            body == digits@.skip(from as int),
            all_digits(body),
            0 <= acc <= cap(),
            acc == (if digits_value(body.take(k - from)) >= cap() {
                cap()
            } else {
                digits_value(body.take(k - from))
            }),
        decreases n - k,
    {
        let c = digits[k];
        assert(body[k - from] == c);
        assert(is_digit(c));
        let d = (c as u32 - '0' as u32) as i64;
        proof {
            lemma_digits_value_step(body, k - from);
            assert(body.take(k - from).len() == k - from);
            lemma_digits_value_nonneg(body.take(k - from));
        }
        if acc >= 0x8000_0001 {
            assert(digits_value(body.take(k + 1 - from)) >= cap()) by (nonlinear_arith)
                requires
                    digits_value(body.take(k + 1 - from)) == digits_value(body.take(k - from))
                        * 10 + d,
                    digits_value(body.take(k - from)) >= cap(),
                    d >= 0,
            ;
        } else {
            let next = acc * 10 + d;
            if next >= 0x8000_0001 {
                acc = 0x8000_0001;
            } else {
                acc = next;
            }
        }
        k = k + 1;
    }
    assert(body.take(n - from) =~= body);
    acc
}

/// `str::parse::<i32>` on the characters `s`.
pub fn parse_i32(s: &[char]) -> (r: Option<i32>)
    ensures
        r == parse_i32_spec(s@),
{
    let n = s.len();
    let neg = n > 0 && s[0] == '-';
    let from: usize = if n > 0 && (s[0] == '-' || s[0] == '+') {
        1
    } else {
        0
    };
    let ghost body = s@.skip(from as int);
    proof {
        if from == 0 {
            assert(body =~= s@);
        }
    }
    if from == n {
        return None;
    }
    let mut k = from;
    while k < n
        invariant
            from <= k <= n,
            n == s@.len(),
            from <= 1,
            body == s@.skip(from as int),
            body == (if s@.len() > 0 && (s@[0] == '-' || s@[0] == '+') {
                s@.skip(1)
            } else {
                s@
            }),
            forall|i: int| from <= i < k ==> is_digit(#[trigger] s@[i]),
        decreases n - k,
    {
        if !(s[k] >= '0' && s[k] <= '9') {
            assert(!is_digit(body[k - from]));
            assert(!all_digits(body));
            return None;
        }
        k = k + 1;
    }
    assert(all_digits(body)) by {
        assert forall|i: int| 0 <= i < body.len() implies is_digit(#[trigger] body[i]) by {
            assert(body[i] == s@[i + from]);
        }
    }
    let v = capped_value(s, from);
    proof {
        lemma_digits_value_nonneg(body);
    }
    if neg {
        if v > 0x8000_0000 {
            None
        } else {
            Some((-v) as i32)
        }
    } else {
        if v > 0x7fff_ffff {
            None
        } else {
            Some(v as i32)
        }
    }
}


proof fn lemma_digit_char(d: int)
    requires
        0 <= d < 10,
    ensures
        is_digit(digit_char(d)),
        digit_value(digit_char(d)) == d,
{
}

/// A decimal numeral is a nonempty run of digits, and its value is the
/// number it was written from.
pub proof fn lemma_decimal_value(n: nat)
    ensures
        decimal(n).len() > 0,
        all_digits(decimal(n)),
        digits_value(decimal(n)) == n,
    decreases n,
{
    if n < 10 {
        lemma_digit_char(n as int);
        assert(decimal(n).drop_last() =~= Seq::<char>::empty());
        assert(digits_value(Seq::<char>::empty()) == 0);
    } else {
        lemma_decimal_value(n / 10);
        lemma_digit_char((n % 10) as int);
        let s = decimal(n);
        assert(s.drop_last() =~= decimal(n / 10));
        assert(s.last() == digit_char((n % 10) as int));
        assert(digits_value(s) == (n / 10) * 10 + (n % 10) as int);
        assert((n / 10) * 10 + (n % 10) as int == n) by (nonlinear_arith);
        assert forall|i: int| 0 <= i < s.len() implies is_digit(#[trigger] s[i]) by {
            if i < s.len() - 1 {
                assert(s[i] == decimal(n / 10)[i]);
            }
        }
    }
}

/// Reading back what `format_i32` writes gives the number again:
/// `parse::<i32>` inverts `Display` on every `i32`.
pub proof fn law_parse_format_roundtrip(v: i32)
    ensures
        parse_i32_spec(signed_decimal(v as int)) == Some(v),
{
    if v < 0 {
        let m = (-v) as nat;
        lemma_decimal_value(m);
        let s = signed_decimal(v as int);
        assert(s[0] == '-');
        assert(s.skip(1) =~= decimal(m));
    } else {
        lemma_decimal_value(v as nat);
        let s = signed_decimal(v as int);
        assert(is_digit(s[0]));
    }
}

} // verus!
