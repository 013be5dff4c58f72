//! Canonical decimal text for the integer identifiers the coordinator prints
//! and persists: digits with no leading zero, a leading `-` for negative
//! values. The executable printer and parser are both proved against the same
//! canonical form, which is what makes the snapshot round trip provable.

use vstd::prelude::*;
use vstd::string::StringExecFns;
use vstd::string::StrSliceExecFns;

verus! {

/// Decimal digit characters, by code point.
pub open spec fn is_digit(c: char) -> bool {
    48 <= c as u32 && c as u32 <= 57
}

/// The digit character for `d` (meaningful for `d < 10`).
pub open spec fn digit_char(d: nat) -> char {
    if d == 0 {
        '0'
    } else if d == 1 {
        '1'
    } else if d == 2 {
        '2'
    } else if d == 3 {
        '3'
    } else if d == 4 {
        '4'
    } else if d == 5 {
        '5'
    } else if d == 6 {
        '6'
    } else if d == 7 {
        '7'
    } else if d == 8 {
        '8'
    } else {
        '9'
    }
}

/// The numeric value of a digit character.
pub open spec fn digit_val(c: char) -> nat {
    (c as u32 - 48) as nat
}

/// Canonical digits of `n`: most significant first, no leading zero except
/// for zero itself.
pub open spec fn dec_digits(n: nat) -> Seq<char>
    decreases n,
{
    if n < 10 {
        seq![digit_char(n)]
    } else {
        dec_digits(n / 10).push(digit_char(n % 10))
    }
}

/// Canonical decimal text of a signed value.
pub open spec fn dec_int(v: int) -> Seq<char> {
    if v < 0 {
        seq!['-'] + dec_digits((-v) as nat)
    } else {
        dec_digits(v as nat)
    }
}

/// The value of a digit sequence read most significant first.
pub open spec fn digits_val(s: Seq<char>) -> nat
    decreases s.len(),
{
    if s.len() == 0 {
        0
    } else {
        digits_val(s.drop_last()) * 10 + digit_val(s.last())
    }
}

pub open spec fn pow10(k: nat) -> nat
    decreases k,
{
    if k == 0 {
        1
    } else {
        10 * pow10((k - 1) as nat)
    }
}

/// How many digit characters follow from position `i`.
pub open spec fn digits_len(s: Seq<char>, i: int) -> int
    decreases s.len() - i,
{
    if i < 0 || i >= s.len() || !is_digit(s[i]) {
        0
    } else {
        1 + digits_len(s, i + 1)
    }
}

/// Parse an unsigned canonical number at position `i`: at least one digit, at
/// most nineteen, no leading zero unless the number is zero itself.
pub open spec fn parse_nat_at(s: Seq<char>, i: int) -> Option<(nat, int)> {
    let k = digits_len(s, i);
    if k == 0 || k > 19 {
        None
    } else if k > 1 && s[i] == '0' {
        None
    } else {
        Some((digits_val(s.subrange(i, i + k)), i + k))
    }
}

/// Parse a signed canonical number at position `i`. `-0` is not canonical and
/// is rejected.
pub open spec fn parse_int_at(s: Seq<char>, i: int) -> Option<(int, int)> {
    if 0 <= i < s.len() && s[i] == '-' {
        match parse_nat_at(s, i + 1) {
            Some((m, j)) => if m == 0 {
                None
            } else {
                Some((-(m as int), j))
            },
            None => None,
        }
    } else {
        match parse_nat_at(s, i) {
            Some((m, j)) => Some((m as int, j)),
            None => None,
        }
    }
}

/// `parse_int_at`, restricted to values that fit an `i64`.
pub open spec fn parse_i64_spec(s: Seq<char>, i: int) -> Option<(int, int)> {
    match parse_int_at(s, i) {
        Some((v, j)) => if -9223372036854775808 <= v <= 9223372036854775807 {
            Some((v, j))
        } else {
            None
        },
        None => None,
    }
}

pub proof fn lemma_digit_char_val(d: nat)
    requires
        d < 10,
    ensures
        digit_val(digit_char(d)) == d,
        is_digit(digit_char(d)),
{
}

pub proof fn lemma_pow10_19()
    ensures
        pow10(19) == 10000000000000000000,
{
    reveal_with_fuel(pow10, 20);
}

pub proof fn lemma_pow10_mono(a: nat, b: nat)
    requires
        a <= b,
    ensures
        pow10(a) <= pow10(b),
    decreases b,
{
    if a < b {
        lemma_pow10_mono(a, (b - 1) as nat);
    }
}

/// The canonical digits of `n` really are canonical: nonempty, all digits,
/// leading zero only for zero, and they denote `n`.
pub proof fn lemma_dec_digits_props(n: nat)
    ensures
        dec_digits(n).len() >= 1,
        forall|i: int| 0 <= i < dec_digits(n).len() ==> is_digit(#[trigger] dec_digits(n)[i]),
        (dec_digits(n)[0] == '0' <==> n == 0),
        digits_val(dec_digits(n)) == n,
        n < pow10(dec_digits(n).len() as nat),
    decreases n,
{
    if n < 10 {
        lemma_digit_char_val(n);
        assert(dec_digits(n) =~= seq![digit_char(n)]);
        assert(dec_digits(n).drop_last() =~= Seq::<char>::empty());
        assert(digits_val(Seq::<char>::empty()) == 0);
        assert(digits_val(dec_digits(n)) == digits_val(dec_digits(n).drop_last()) * 10 + digit_val(
            dec_digits(n).last(),
        ));
        assert(pow10(1nat) == 10 * pow10(0nat));
    } else {
        lemma_dec_digits_props(n / 10);
        lemma_digit_char_val(n % 10);
        let t = dec_digits(n / 10);
        let c = digit_char(n % 10);
        assert(dec_digits(n) == t.push(c));
        assert(t.push(c).drop_last() =~= t);
        assert(t.push(c).last() == c);
        assert(digits_val(dec_digits(n)) == (n / 10) * 10 + n % 10);
        assert(forall|i: int|
            0 <= i < dec_digits(n).len() ==> is_digit(#[trigger] dec_digits(n)[i])) by {
            assert forall|i: int|
                0 <= i < dec_digits(n).len() implies is_digit(#[trigger] dec_digits(n)[i]) by {
                if i < t.len() {
                    assert(dec_digits(n)[i] == t[i]);
                } else {
                    assert(dec_digits(n)[i] == c);
                }
            };
        }
        assert(dec_digits(n)[0] == t[0]);
        assert(n / 10 != 0);
        assert(n < pow10(dec_digits(n).len() as nat)) by {
            assert(n / 10 < pow10(t.len() as nat));
            assert(pow10(dec_digits(n).len() as nat) == 10 * pow10(t.len() as nat));
            assert(n == (n / 10) * 10 + n % 10);
        }
    }
}

/// A value below `pow10(k)` needs at most `k` digits.
pub proof fn lemma_dec_len_le(n: nat, k: nat)
    requires
        k >= 1,
        n < pow10(k),
    ensures
        dec_digits(n).len() <= k,
    decreases n,
{
    if n < 10 {
    } else {
        assert(pow10(k) == 10 * pow10((k - 1) as nat));
        assert(n / 10 < pow10((k - 1) as nat));
        if k == 1 {
            assert(pow10(0nat) == 1);
            assert(false);
        }
        lemma_dec_len_le(n / 10, (k - 1) as nat);
    }
}

/// The digit run length is never negative.
pub proof fn lemma_digits_len_nonneg(s: Seq<char>, i: int)
    ensures
        digits_len(s, i) >= 0,
    decreases s.len() - i,
{
    if 0 <= i && i < s.len() && is_digit(s[i]) {
        lemma_digits_len_nonneg(s, i + 1);
    }
}

/// `digits_len` counts exactly the run of digits.
pub proof fn lemma_digits_len_exact(s: Seq<char>, i: int, l: int)
    requires
        0 <= i,
        l >= 0,
        i + l <= s.len(),
        forall|j: int| i <= j < i + l ==> is_digit(#[trigger] s[j]),
        i + l == s.len() || !is_digit(s[i + l]),
    ensures
        digits_len(s, i) == l,
    decreases l,
{
    if l == 0 {
    } else {
        assert(is_digit(s[i]));
        lemma_digits_len_exact(s, i + 1, l - 1);
    }
}

/// At least `l` digits run from `i` when the window holds only digits.
pub proof fn lemma_digits_len_ge(s: Seq<char>, i: int, l: int)
    requires
        0 <= i,
        l >= 0,
        i + l <= s.len(),
        forall|j: int| i <= j < i + l ==> is_digit(#[trigger] s[j]),
    ensures
        digits_len(s, i) >= l,
    decreases l,
{
    if l == 0 {
        lemma_digits_len_nonneg(s, i);
    } else {
        assert(is_digit(s[i]));
        lemma_digits_len_ge(s, i + 1, l - 1);
        assert(digits_len(s, i) == 1 + digits_len(s, i + 1));
    }
}

/// Appending one digit multiplies the value by ten and adds it.
pub proof fn lemma_digits_val_push(t: Seq<char>, c: char)
    ensures
        digits_val(t.push(c)) == digits_val(t) * 10 + digit_val(c),
{
    assert(t.push(c).drop_last() =~= t);
    assert(t.push(c).last() == c);
}

/// Parsing recovers exactly the value whose canonical text sits at `i`,
/// provided no digit follows it (so the run ends where the text ends).
pub proof fn lemma_parse_dec_int(s: Seq<char>, i: int, v: int)
    requires
        0 <= i,
        i + dec_int(v).len() <= s.len(),
        s.subrange(i, i + dec_int(v).len() as int) == dec_int(v),
        -(pow10(19) as int) < v < pow10(19) as int,
        i + dec_int(v).len() == s.len() || !is_digit(s[i + dec_int(v).len()]),
    ensures
        parse_int_at(s, i) == Some((v, i + dec_int(v).len() as int)),
{
    let w = s.subrange(i, i + dec_int(v).len() as int);
    if v >= 0 {
        let d = dec_digits(v as nat);
        lemma_dec_digits_props(v as nat);
        lemma_dec_len_le(v as nat, 19);
        assert forall|j: int| i <= j < i + d.len() implies s[j] == d[j - i] by {
            assert(s[j] == w[j - i]);
        };
        assert forall|j: int| i <= j < i + d.len() implies is_digit(#[trigger] s[j]) by {
            assert(s[j] == d[j - i]);
        };
        lemma_digits_len_exact(s, i, d.len() as int);
        assert(s[i] == d[0]);
        assert('-' as u32 == 45);
        assert(!is_digit('-'));
        assert(s.subrange(i, i + d.len() as int) =~= d);
        if d.len() > 1 {
            assert(v != 0);
            assert(s[i] != '0');
        }
        assert(digits_val(s.subrange(i, i + digits_len(s, i))) == v as nat);
    } else {
        let m = (-v) as nat;
        let d = dec_digits(m);
        lemma_dec_digits_props(m);
        lemma_dec_len_le(m, 19);
        assert(dec_int(v) == seq!['-'] + d);
        assert(dec_int(v).len() == 1 + d.len());
        assert(s[i] == w[0]);
        assert(s[i] == '-');
        assert forall|j: int| i + 1 <= j < i + 1 + d.len() implies s[j] == d[j - i - 1] by {
            assert(s[j] == w[j - i]);
            assert(w[j - i] == (seq!['-'] + d)[j - i]);
        };
        assert forall|j: int| i + 1 <= j < i + 1 + d.len() implies is_digit(#[trigger] s[j]) by {
            assert(s[j] == d[j - i - 1]);
        };
        lemma_digits_len_exact(s, i + 1, d.len() as int);
        assert(s[i + 1] == d[0]);
        if d.len() > 1 {
            assert(m != 0);
            assert(s[i + 1] != '0');
        }
        assert(s.subrange(i + 1, i + 1 + d.len() as int) =~= d);
        assert(digits_val(s.subrange(i + 1, i + 1 + digits_len(s, i + 1))) == m);
        assert(m != 0);
    }
}

/// One-character string for a digit.
fn digit_str(d: u8) -> (r: &'static str)
    requires
        d < 10,
    ensures
        r@ == seq![digit_char(d as nat)],
{
    match d {
        0 => {
            proof {
                reveal_strlit("0");
                assert("0"@ =~= seq![digit_char(0nat)]);
            }
            "0"
        },
        1 => {
            proof {
                reveal_strlit("1");
                assert("1"@ =~= seq![digit_char(1nat)]);
            }
            "1"
        },
        2 => {
            proof {
                reveal_strlit("2");
                assert("2"@ =~= seq![digit_char(2nat)]);
            }
            "2"
        },
        3 => {
            proof {
                reveal_strlit("3");
                assert("3"@ =~= seq![digit_char(3nat)]);
            }
            "3"
        },
        4 => {
            proof {
                reveal_strlit("4");
                assert("4"@ =~= seq![digit_char(4nat)]);
            }
            "4"
        },
        5 => {
            proof {
                reveal_strlit("5");
                assert("5"@ =~= seq![digit_char(5nat)]);
            }
            "5"
        },
        6 => {
            proof {
                reveal_strlit("6");
                assert("6"@ =~= seq![digit_char(6nat)]);
            }
            "6"
        },
        7 => {
            proof {
                reveal_strlit("7");
                assert("7"@ =~= seq![digit_char(7nat)]);
            }
            "7"
        },
        8 => {
            proof {
                reveal_strlit("8");
                assert("8"@ =~= seq![digit_char(8nat)]);
            }
            "8"
        },
        _ => {
            proof {
                reveal_strlit("9");
                assert("9"@ =~= seq![digit_char(9nat)]);
            }
            "9"
        },
    }
}

/// Canonical digits of an unsigned value.
pub fn u64_to_dec(n: u64) -> (r: String)
    ensures
        r@ == dec_digits(n as nat),
    decreases n,
{
    if n < 10 {
        let r = String::from_str(digit_str(n as u8));
        proof {
            assert(r@ =~= dec_digits(n as nat));
        }
        r
    } else {
        let mut r = u64_to_dec(n / 10);
        r.append(digit_str((n % 10) as u8));
        proof {
            assert(r@ =~= dec_digits((n as nat) / 10).push(digit_char((n as nat) % 10)));
        }
        r
    }
}

/// Canonical decimal text of a signed value.
pub fn i64_to_dec(v: i64) -> (r: String)
    ensures
        r@ == dec_int(v as int),
{
    if v >= 0 {
        u64_to_dec(v as u64)
    } else {
        let m: u64 = (-(v as i128)) as u64;
        let mut r = String::from_str("-");
        let digits = u64_to_dec(m);
        r.append(digits.as_str());
        proof {
            reveal_strlit("-");
            assert("-"@ =~= seq!['-']);
            assert(m as nat == (-(v as int)) as nat);
            assert(r@ =~= seq!['-'] + dec_digits((-(v as int)) as nat));
        }
        r
    }
}

/// Length of the run of digit characters starting at `start`, capped at 20.
fn digit_run(s: &str, start: usize, len: usize) -> (k: usize)
    requires
        len == s@.len(),
        start <= len,
    ensures
        k <= 20,
        start + k <= len,
        forall|j: int| start <= j < start + k ==> is_digit(#[trigger] s@[j]),
        k < 20 ==> digits_len(s@, start as int) == k,
        k == 20 ==> digits_len(s@, start as int) >= 20,
{
    let mut k: usize = 0;
    loop
        invariant
            len == s@.len(),
            start <= len,
            start + k <= len,
            k <= 20,
            forall|j: int| start <= j < start + k ==> is_digit(#[trigger] s@[j]),
        ensures
            start + k <= len,
            k <= 20,
            forall|j: int| start <= j < start + k ==> is_digit(#[trigger] s@[j]),
            k == 20 || start + k == len || !is_digit(s@[start + k]),
        decreases 20 - k,
    {
        if k == 20 || start + k == len {
            break ;
        }
        let c = s.get_char(start + k);
        let cv = c as u32;
        if cv < 48 || cv > 57 {
            break ;
        }
        k += 1;
    }
    proof {
        if k < 20 {
            lemma_digits_len_exact(s@, start as int, k as int);
        } else {
            lemma_digits_len_ge(s@, start as int, 20);
        }
    }
    k
}

/// Parse a canonical signed number that fits an `i64` at character position
/// `i`, returning the value and the position just past its digits.
pub fn parse_i64_at(s: &str, i: usize, len: usize) -> (r: Option<(i64, usize)>)
    requires
        len == s@.len(),
        i <= len,
    ensures
        match r {
            Some(p) => parse_i64_spec(s@, i as int) == Some((p.0 as int, p.1 as int)) && p.1
                <= len,
            None => parse_i64_spec(s@, i as int) is None,
        },
{
    let mut neg = false;
    if i < len {
        let c = s.get_char(i);
        if c == '-' {
            neg = true;
        }
    }
    let start = if neg {
        i + 1
    } else {
        i
    };
    let k = digit_run(s, start, len);
    if k == 0 || k == 20 {
        return None;
    }
    if k > 1 {
        let c0 = s.get_char(start);
        if c0 as u32 == 48 {
            return None;
        }
    }
    let ghost run = s@.subrange(start as int, start as int + k as int);
    let mut acc: u64 = 0;
    let mut j: usize = 0;
    proof {
        assert(run.subrange(0, 0) =~= Seq::<char>::empty());
        lemma_pow10_19();
    }
    while j < k
        invariant
            len == s@.len(),
            start + k <= len,
            1 <= k <= 19,
            j <= k,
            run == s@.subrange(start as int, start as int + k as int),
            forall|m: int| start <= m < start + k ==> is_digit(#[trigger] s@[m]),
            acc == digits_val(run.subrange(0, j as int)),
            acc < pow10(j as nat),
            pow10(19) == 10000000000000000000,
        decreases k - j,
    {
        let c = s.get_char(start + j);
        let d = (c as u32 - 48) as u8;
        proof {
            assert(is_digit(s@[start + j]));
            lemma_pow10_mono(j as nat, 18);
            assert(pow10(18nat) * 10 == pow10(19nat));
            assert(acc * 10 <= (pow10(18nat) - 1) * 10) by (nonlinear_arith)
                requires
                    acc < pow10(18nat),
            ;
        }
        acc = acc * 10 + (d as u64);
        proof {
            let pre = run.subrange(0, j as int);
            assert(run.subrange(0, j + 1) =~= pre.push(run[j as int]));
            lemma_digits_val_push(pre, run[j as int]);
            assert(run[j as int] == s@[start + j]);
            assert(digit_val(s@[start + j]) == d as nat);
            assert(acc < pow10((j + 1) as nat)) by (nonlinear_arith)
                requires
                    acc == digits_val(pre) * 10 + digit_val(run[j as int]),
                    digits_val(pre) < pow10(j as nat),
                    digit_val(run[j as int]) < 10,
                    pow10((j + 1) as nat) == 10 * pow10(j as nat),
            ;
        }
        j += 1;
    }
    proof {
        assert(run.subrange(0, k as int) =~= run);
        assert(digits_len(s@, start as int) == k);
        if neg {
            assert(parse_nat_at(s@, i + 1) == Some((acc as nat, start + k as int)));
        } else {
            assert(0 <= i < s@.len() ==> s@[i as int] != '-') by {
                if i < s@.len() && s@[i as int] == '-' {
                    assert('-' as u32 == 45);
        assert(!is_digit('-'));
                    assert(digits_len(s@, i as int) == 0);
                }
            }
            assert(parse_nat_at(s@, i as int) == Some((acc as nat, start + k as int)));
        }
    }
    if neg {
        if acc == 0 {
            return None;
        }
        if acc > 9223372036854775808u64 {
            return None;
        }
        let v: i64 = if acc == 9223372036854775808u64 {
            i64::MIN
        } else {
            -(acc as i64)
        };
        Some((v, start + k))
    } else {
        if acc > 9223372036854775807u64 {
            return None;
        }
        Some((acc as i64, start + k))
    }
}

} // verus!
