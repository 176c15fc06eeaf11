//! Decimal text of 64-bit signed integers: printing and strict parsing.

use vstd::prelude::*;

verus! {

/// The character of a decimal digit `d < 10`.
pub open spec fn digit_char(d: nat) -> char {
    seq!['0', '1', '2', '3', '4', '5', '6', '7', '8', '9'][d as int]
}

pub open spec fn is_digit(c: char) -> bool {
    '0' <= c && c <= '9'
}

pub open spec fn digit_value(c: char) -> nat {
    (c as u32 - '0' as u32) as nat
}

/// Decimal digits of `n`, most significant first, without leading zeros.
pub open spec fn nat_text(n: nat) -> Seq<char>
    decreases n,
{
    if n < 10 {
        seq![digit_char(n)]
    } else {
        nat_text(n / 10).push(digit_char(n % 10))
    }
}

/// Decimal text of `i`: a minus sign for negative values, then its digits.
pub open spec fn int_text(i: int) -> Seq<char> {
    if i < 0 {
        seq!['-'] + nat_text((-i) as nat)
    } else {
        nat_text(i as nat)
    }
}

pub open spec fn all_digits(s: Seq<char>) -> bool {
    s.len() > 0 && forall|j: int| 0 <= j < s.len() ==> is_digit(#[trigger] s[j])
}

/// The number that a sequence of digits denotes.
pub open spec fn digits_value(s: Seq<char>) -> nat
    decreases s.len(),
{
    if s.len() == 0 {
        0
    } else {
        digits_value(s.drop_last()) * 10 + digit_value(s.last())
    }
}

/// The integer that `s` denotes: an optional `+` or `-`, then one or more digits.
pub open spec fn int_value(s: Seq<char>) -> Option<int> {
    if s.len() > 0 && (s[0] == '-' || s[0] == '+') && all_digits(s.drop_first()) {
        if s[0] == '-' {
            Some(-digits_value(s.drop_first()))
        } else {
            Some(digits_value(s.drop_first()) as int)
        }
    } else if all_digits(s) {
        Some(digits_value(s) as int)
    } else {
        None
    }
}

/// The `i64` that `s` denotes, if `s` is an integer literal in its range.
pub open spec fn i64_value(s: Seq<char>) -> Option<i64> {
    match int_value(s) {
        Some(v) => if i64::MIN <= v <= i64::MAX {
            Some(v as i64)
        } else {
            None
        },
        None => None,
    }
}

proof fn lemma_digit_char(d: nat)
    requires
        d < 10,
    ensures
        is_digit(digit_char(d)),
        digit_value(digit_char(d)) == d,
{
    let c = digit_char(d);
    if d == 0 { assert(c == '0'); } else if d == 1 { assert(c == '1'); }
    else if d == 2 { assert(c == '2'); } else if d == 3 { assert(c == '3'); }
    else if d == 4 { assert(c == '4'); } else if d == 5 { assert(c == '5'); }
    else if d == 6 { assert(c == '6'); } else if d == 7 { assert(c == '7'); }
    else if d == 8 { assert(c == '8'); } else { assert(c == '9'); }
}

proof fn lemma_nat_text(n: nat)
    ensures
        all_digits(nat_text(n)),
        digits_value(nat_text(n)) == n,
    decreases n,
{
    if n < 10 {
        lemma_digit_char(n);
        assert(nat_text(n).drop_last() =~= Seq::<char>::empty());
        assert(digits_value(Seq::<char>::empty()) == 0);
        assert(digits_value(nat_text(n)) == digits_value(nat_text(n).drop_last()) * 10
            + digit_value(nat_text(n).last()));
    } else {
        lemma_nat_text(n / 10);
        lemma_digit_char(n % 10);
        let s = nat_text(n);
        assert(nat_text(n).last() == digit_char(n % 10));
        assert((n / 10) * 10 + n % 10 == n);
        assert(digits_value(s) == digits_value(s.drop_last()) * 10 + digit_value(s.last()));
        assert(s.drop_last() =~= nat_text(n / 10));
        assert forall|j: int| 0 <= j < s.len() implies is_digit(#[trigger] s[j]) by {
            if j < s.len() - 1 {
                assert(s[j] == nat_text(n / 10)[j]);
            }
        }
    }
}

/// Printing an `i64` and parsing the text gives the number back.
pub proof fn lemma_int_text_parses(x: i64)
    ensures
        i64_value(int_text(x as int)) == Some(x),
{
    if x < 0 {
        let m = (-x) as nat;
        lemma_nat_text(m);
        assert((seq!['-'] + nat_text(m)).drop_first() =~= nat_text(m));
    } else {
        lemma_nat_text(x as nat);
    }
}

/// Decimal text holds only digits and a leading minus sign.
pub proof fn lemma_int_text_chars(x: int)
    ensures
        int_text(x).len() > 0,
        forall|j: int| 0 <= j < int_text(x).len() ==> {
            let c = #[trigger] int_text(x)[j];
            is_digit(c) || c == '-'
        },
{
    if x < 0 {
        let m = (-x) as nat;
        lemma_nat_text(m);
        assert forall|j: int| 0 <= j < int_text(x).len() implies {
            let c = #[trigger] int_text(x)[j];
            is_digit(c) || c == '-'
        } by {
            if j > 0 {
                assert(int_text(x)[j] == nat_text(m)[j - 1]);
            }
        }
    } else {
        lemma_nat_text(x as nat);
    }
}

proof fn lemma_digits_value_monotone(s: Seq<char>, a: int, k: int, m: int)
    requires
        0 <= a <= k <= m <= s.len(),
    ensures
        digits_value(s.subrange(a, k)) <= digits_value(s.subrange(a, m)),
    decreases m - k,
{
    if k < m {
        lemma_digits_value_monotone(s, a, k, m - 1);
        assert(s.subrange(a, m).drop_last() =~= s.subrange(a, m - 1));
    }
}

fn digit_str(d: u64) -> (r: &'static str)
    requires
        d < 10,
    ensures
        r@ == seq![digit_char(d as nat)],
{
    proof {
        reveal_strlit("0");
        reveal_strlit("1");
        reveal_strlit("2");
        reveal_strlit("3");
        reveal_strlit("4");
        reveal_strlit("5");
        reveal_strlit("6");
        reveal_strlit("7");
        reveal_strlit("8");
        reveal_strlit("9");
    }
    match d {
        0 => "0",
        1 => "1",
        2 => "2",
        3 => "3",
        4 => "4",
        5 => "5",
        6 => "6",
        7 => "7",
        8 => "8",
        _ => "9",
    }
}

/// Appends the decimal digits of `n` to `out`.
pub fn append_nat_text(out: &mut String, n: u64)
    ensures
        final(out)@ == old(out)@ + nat_text(n as nat),
    decreases n,
{
    if n >= 10 {
        append_nat_text(out, n / 10);
    }
    out.append(digit_str(n % 10));
    proof {
        if n >= 10 {
            assert(nat_text(n as nat) == nat_text((n / 10) as nat).push(digit_char((n % 10) as nat)));
        }
    }
    assert(final(out)@ =~= old(out)@ + nat_text(n as nat));
}

/// Appends the decimal text of `x` to `out`.
pub fn append_i64_text(out: &mut String, x: i64)
    ensures
        final(out)@ == old(out)@ + int_text(x as int),
{
    if x < 0 {
        out.append("-");
        let m: u64 = (-(x as i128)) as u64;
        append_nat_text(out, m);
        proof {
            reveal_strlit("-");
        }
        assert(final(out)@ =~= old(out)@ + int_text(x as int));
    } else {
        append_nat_text(out, x as u64);
    }
}

/// Decimal text of `x`.
pub fn i64_text(x: i64) -> (r: String)
    ensures
        r@ == int_text(x as int),
{
    let mut out = String::new();
    append_i64_text(&mut out, x);
    assert(out@ =~= int_text(x as int));
    out
}

/// Parses `s` as a decimal `i64`: an optional sign, then digits only, in range.
pub fn parse_i64(s: &str) -> (r: Option<i64>)
    ensures
        r == i64_value(s@),
{
    let n = s.unicode_len();
    if n == 0 {
        return None;
    }
    let first = s.get_char(0);
    let neg = first == '-';
    let start: usize = if first == '-' || first == '+' {
        1
    } else {
        0
    };
    if start == n {
        return None;
    }
    let ghost body = s@.subrange(start as int, n as int);
    assert(start == 1 ==> body =~= s@.drop_first());
    assert(start == 0 ==> body =~= s@);
    assert(start == 1 ==> !is_digit(s@[0]));
    assert(int_value(s@) == if all_digits(body) {
        Some(if neg { -digits_value(body) } else { digits_value(body) as int })
    } else {
        None::<int>
    });
    let mut acc: u64 = 0;
    let mut i: usize = start;
    while i < n
        invariant
            start <= i <= n,
            n == s@.len(),
            start < n,
            body == s@.subrange(start as int, n as int),
            forall|j: int| start <= j < i ==> is_digit(#[trigger] s@[j]),
            acc == digits_value(s@.subrange(start as int, i as int)),
            int_value(s@) == if all_digits(body) {
                Some(if neg { -digits_value(body) } else { digits_value(body) as int })
            } else {
                None::<int>
            },
        decreases n - i,
    {
        let c = s.get_char(i);
        if !('0' <= c && c <= '9') {
            assert(!is_digit(body[i - start]));
            assert(!all_digits(body));
            return None;
        }
        let d = (c as u32 - '0' as u32) as u64;
        let ghost prev = s@.subrange(start as int, i as int);
        let ghost next = s@.subrange(start as int, i + 1);
        assert(next.drop_last() =~= prev);
        assert(next.last() == c);
        assert(digits_value(next) == acc * 10 + d);
        let step = acc.checked_mul(10);
        match step {
            Some(m) => match m.checked_add(d) {
                Some(v) => {
                    acc = v;
                },
                None => {
                    proof {
                        lemma_digits_value_monotone(s@, start as int, i + 1, n as int);
                    }
                    return None;
                },
            },
            None => {
                proof {
                    lemma_digits_value_monotone(s@, start as int, i + 1, n as int);
                }
                return None;
            },
        }
        i = i + 1;
    }
    assert(s@.subrange(start as int, n as int) == body);
    assert(all_digits(body));
    if neg {
        if acc > 9223372036854775808u64 {
            None
        } else {
            Some((-(acc as i128)) as i64)
        }
    } else if acc > 9223372036854775807u64 {
        None
    } else {
        Some(acc as i64)
    }
}

} // verus!
