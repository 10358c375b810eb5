//! Small text utilities: string equality by content, and the decimal form
//! of 64-bit integers, used by the record serializer and parser.

use vstd::prelude::*;
use vstd::utf8::{decode_utf8, encode_utf8};

verus! {

broadcast use vstd::utf8::encode_utf8_decode_utf8;

/// Whether `t` occurs in `s` at position `i`.
pub open spec fn text_at(s: Seq<char>, i: int, t: Seq<char>) -> bool {
    0 <= i && i + t.len() <= s.len() && s.subrange(i, i + t.len()) == t
}

/// Compares two strings by content.
pub fn str_eq(a: &str, b: &str) -> (r: bool)
    ensures
        r == (a@ == b@),
{
    let ab = a.as_bytes();
    let bb = b.as_bytes();
    if ab.len() != bb.len() {
        return false;
    }
    let n = ab.len();
    let mut i: usize = 0;
    while i < n
        invariant
            n == ab@.len() == bb@.len(),
            i <= n,
            ab@ == encode_utf8(a@),
            bb@ == encode_utf8(b@),
            forall|k: int| 0 <= k < i ==> ab@[k] == bb@[k],
        decreases n - i,
    {
        if ab[i] != bb[i] {
            return false;
        }
        i += 1;
    }
    proof {
        assert(ab@ =~= bb@);
        assert(decode_utf8(encode_utf8(a@)) == decode_utf8(encode_utf8(b@)));
    }
    true
}

/// The decimal digit character for a value below ten.
pub open spec fn dec_digit(d: int) -> char {
    if d == 0 {
        '0'
    } else if d == 1 {
        '1'
    } else if d == 2 {
        '2'
    } else if d == 3 {
        '3'
    } else if d == 4 {
        '4'
    } else if d == 5 {
        '5'
    } else if d == 6 {
        '6'
    } else if d == 7 {
        '7'
    } else if d == 8 {
        '8'
    } else {
        '9'
    }
}

/// Whether a character is a decimal digit.
pub open spec fn is_dec_digit(c: char) -> bool {
    '0' <= c <= '9'
}

/// The numeric value of a digit character.
pub open spec fn digit_value(c: char) -> int {
    c as int - '0' as int
}

/// The decimal text of a natural number, without leading zeros.
pub open spec fn dec_nat(n: nat) -> Seq<char>
    decreases n,
{
    if n < 10 {
        seq![dec_digit(n as int)]
    } else {
        dec_nat(n / 10) + seq![dec_digit((n % 10) as int)]
    }
}

/// The decimal text of an integer: a minus sign for negatives, then the
/// digits of the magnitude.
pub open spec fn dec_rep(x: int) -> Seq<char> {
    if x < 0 {
        seq!['-'] + dec_nat((-x) as nat)
    } else {
        dec_nat(x as nat)
    }
}

/// Every character of `dec_nat` is a digit.
pub proof fn lemma_dec_nat_digits(n: nat)
    ensures
        dec_nat(n).len() >= 1,
        forall|i: int| 0 <= i < dec_nat(n).len() ==> is_dec_digit(#[trigger] dec_nat(n)[i]),
    decreases n,
{
    if n >= 10 {
        lemma_dec_nat_digits(n / 10);
        assert(forall|i: int|
            0 <= i < dec_nat(n).len() - 1 ==> dec_nat(n)[i] == dec_nat(n / 10)[i]);
    }
}

/// The value a digit string spells, most significant digit first.
pub open spec fn digits_val(ds: Seq<char>) -> int
    decreases ds.len(),
{
    if ds.len() == 0 {
        0
    } else {
        digits_val(ds.drop_last()) * 10 + digit_value(ds.last())
    }
}

/// The digit character of a value spells that value back.
pub proof fn lemma_digit_value(d: int)
    requires
        0 <= d <= 9,
    ensures
        digit_value(dec_digit(d)) == d,
        is_dec_digit(dec_digit(d)),
{
    assert('0' as int == 48 && '1' as int == 49 && '2' as int == 50 && '3' as int == 51 && '4'
        as int == 52 && '5' as int == 53 && '6' as int == 54 && '7' as int == 55 && '8' as int
        == 56 && '9' as int == 57);
}

/// The decimal text of a number spells that number back.
pub proof fn lemma_dec_nat_val(n: nat)
    ensures
        digits_val(dec_nat(n)) == n,
    decreases n,
{
    if n < 10 {
        lemma_digit_value(n as int);
        assert(dec_nat(n).drop_last() =~= Seq::<char>::empty());
        assert(dec_nat(n).last() == dec_digit(n as int));
        assert(digits_val(dec_nat(n)) == digits_val(Seq::<char>::empty()) * 10 + digit_value(
            dec_digit(n as int),
        ));
        assert(digits_val(Seq::<char>::empty()) == 0);
    } else {
        lemma_dec_nat_val(n / 10);
        lemma_digit_value((n % 10) as int);
        assert(dec_nat(n).drop_last() =~= dec_nat(n / 10));
        assert(dec_nat(n).last() == dec_digit((n % 10) as int));
    }
}

/// A prefix of a digit string spells a value between zero and the whole
/// string's value.
pub proof fn lemma_digits_val_prefix(ds: Seq<char>, k: int)
    requires
        0 <= k <= ds.len(),
        forall|t: int| 0 <= t < ds.len() ==> is_dec_digit(#[trigger] ds[t]),
    ensures
        0 <= digits_val(ds.take(k)),
        digits_val(ds.take(k)) <= digits_val(ds),
    decreases ds.len(),
{
    if ds.len() == 0 {
        assert(ds.take(k) =~= ds);
    } else if k == ds.len() {
        assert(ds.take(k) =~= ds);
        lemma_digits_val_prefix(ds.drop_last(), k - 1);
        assert(ds.drop_last().take(k - 1) =~= ds.drop_last());
    } else {
        lemma_digits_val_prefix(ds.drop_last(), k);
        assert(ds.take(k) =~= ds.drop_last().take(k));
        assert(digit_value(ds.last()) >= 0);
        assert(digits_val(ds.drop_last()) * 10 >= digits_val(ds.drop_last())) by {
            lemma_digits_val_prefix(ds.drop_last(), ds.len() - 1);
            assert(ds.drop_last().take(ds.len() - 1) =~= ds.drop_last());
        }
    }
}

/// Finds the end of the run of digits that starts at `from`.
fn scan_digits(s: &str, n: usize, from: usize) -> (j: usize)
    requires
        n == s@.len(),
        from <= n,
    ensures
        from <= j <= n,
        forall|t: int| from <= t < j ==> is_dec_digit(#[trigger] s@[t]),
        j == n || !is_dec_digit(s@[j as int]),
{
    let mut j = from;
    while j < n
        invariant
            n == s@.len(),
            from <= j <= n,
            forall|t: int| from <= t < j ==> is_dec_digit(#[trigger] s@[t]),
        decreases n - j,
    {
        let cv = s.get_char(j) as u32;
        if cv < 48 || cv > 57 {
            return j;
        }
        j += 1;
    }
    j
}

/// Reads a decimal 64-bit integer token.  Whenever the text of some `i64`
/// stands at `i` with no digit right after it, this returns exactly that
/// number and stops right after its last digit.
#[verifier::loop_isolation(false)]
pub fn parse_i64(s: &str, n: usize, i: usize) -> (r: Option<(i64, usize)>)
    requires
        n == s@.len(),
        i <= n,
    ensures
        r matches Some(p) ==> i < p.1 <= n,
        forall|x: int|
            (i64::MIN <= x <= i64::MAX && text_at(s@, i as int, #[trigger] dec_rep(x)) && (i
                + dec_rep(x).len() == n || !is_dec_digit(s@[i + dec_rep(x).len()]))) ==> (
            r matches Some(p) && p.0 == x && p.1 == i + dec_rep(x).len()),
{
    let mut neg = false;
    let mut start = i;
    if i < n && s.get_char(i) as u32 == 45 {
        proof {
            assert(s@[i as int] == '-');
        }
        neg = true;
        start = i + 1;
    }
    let j_end = scan_digits(s, n, start);
    proof {
        assert('-' as int == 45 && '0' as int == 48 && '9' as int == 57);
        assert forall|x: int|
            i64::MIN <= x <= i64::MAX && text_at(s@, i as int, dec_rep(x)) && (i + dec_rep(x).len()
                == n || !is_dec_digit(s@[i + dec_rep(x).len()])) implies {
            &&& neg == (x < 0)
            &&& s@.subrange(start as int, j_end as int) == dec_nat(vstd::math::abs(x) as nat)
            &&& j_end == i + dec_rep(x).len()
        } by {
            let m = vstd::math::abs(x) as nat;
            let len = dec_rep(x).len() as int;
            let e = i + len;
            lemma_dec_nat_digits(m);
            assert forall|t: int| 0 <= t < len implies s@[i + t] == #[trigger] dec_rep(x)[t] by {
                assert(s@.subrange(i as int, i + dec_rep(x).len())[t] == s@[i + t]);
            }
            if x < 0 {
                assert(dec_rep(x)[0] == '-');
                assert(s@[i as int] == '-');
                assert(neg && start == i + 1);
                assert forall|t: int| start <= t < e implies s@[t] == dec_nat(m)[t - start] by {
                    assert(dec_rep(x)[t - i] == dec_nat(m)[t - i - 1]);
                }
            } else {
                assert(dec_rep(x) == dec_nat(m));
                assert(s@[i as int] == dec_nat(m)[0]);
                assert(is_dec_digit(s@[i as int]));
                assert(s@[i as int] != '-');
                assert(!neg && start == i);
                assert forall|t: int| start <= t < e implies s@[t] == dec_nat(m)[t - start] by {
                    assert(dec_rep(x)[t - i] == dec_nat(m)[t - i]);
                }
            }
            assert(start + dec_nat(m).len() == e);
            assert forall|t: int| start <= t < e implies is_dec_digit(#[trigger] s@[t]) by {
                assert(s@[t] == dec_nat(m)[t - start]);
            }
            assert(j_end == e) by {
                if j_end < e {
                    assert(j_end < n);
                    assert(!is_dec_digit(s@[j_end as int]));
                    assert(is_dec_digit(s@[j_end as int]));
                }
                if j_end > e {
                    assert(is_dec_digit(s@[e as int]));
                    assert(e < n ==> !is_dec_digit(s@[e as int]));
                }
            }
            assert(s@.subrange(start as int, j_end as int) =~= dec_nat(m));
        }
    }
    if j_end == start {
        return None;
    }
    let ghost span = s@.subrange(start as int, j_end as int);
    let mut mag: u64 = 0;
    let mut t = start;
    while t < j_end
        invariant
            n == s@.len(),
            start <= t <= j_end <= n,
            start < j_end,
            forall|u: int| start <= u < j_end ==> is_dec_digit(#[trigger] s@[u]),
            span == s@.subrange(start as int, j_end as int),
            mag == digits_val(span.take(t - start)),
        decreases j_end - t,
    {
        let cv = s.get_char(t) as u32;
        proof {
            assert(is_dec_digit(s@[t as int]));
            assert(span[t - start] == s@[t as int]);
        }
        let d = (cv - 48) as u64;
        let stepped = match mag.checked_mul(10) {
            Some(m10) => m10.checked_add(d),
            None => None,
        };
        match stepped {
            Some(next) => {
                mag = next;
                proof {
                    assert(span.take(t - start + 1).drop_last() =~= span.take(t - start));
                    assert(span.take(t - start + 1).last() == s@[t as int]);
                    assert(digit_value(s@[t as int]) == d);
                }
                t += 1;
            },
            None => {
                proof {
                    assert forall|x: int|
                        !(i64::MIN <= x <= i64::MAX && text_at(s@, i as int, dec_rep(x)) && (i
                            + dec_rep(x).len() == n || !is_dec_digit(
                            s@[i + dec_rep(x).len()],
                        ))) by {
                        if i64::MIN <= x <= i64::MAX && text_at(s@, i as int, dec_rep(x)) && (i
                            + dec_rep(x).len() == n || !is_dec_digit(s@[i + dec_rep(x).len()])) {
                            let m = vstd::math::abs(x) as nat;
                            assert(span =~= dec_nat(m));
                            lemma_dec_nat_val(m);
                            lemma_dec_nat_digits(m);
                            lemma_digits_val_prefix(span, t - start + 1);
                            assert(span.take(t - start + 1).drop_last() =~= span.take(t - start));
                            assert(digits_val(span.take(t - start + 1)) == mag * 10 + digit_value(
                                s@[t as int],
                            ));
                            assert(mag * 10 + digit_value(s@[t as int]) <= m);
                            assert(m <= 0x8000_0000_0000_0000);
                        }
                    }
                }
                return None;
            },
        }
    }
    proof {
        assert(span.take(j_end - start) =~= span);
    }
    if neg {
        if mag > 9_223_372_036_854_775_808u64 {
            proof {
                assert forall|x: int|
                    !(i64::MIN <= x <= i64::MAX && text_at(s@, i as int, dec_rep(x)) && (i
                        + dec_rep(x).len() == n || !is_dec_digit(s@[i + dec_rep(x).len()]))) by {
                    if i64::MIN <= x <= i64::MAX && text_at(s@, i as int, dec_rep(x)) && (i
                        + dec_rep(x).len() == n || !is_dec_digit(s@[i + dec_rep(x).len()])) {
                        let m = vstd::math::abs(x) as nat;
                        assert(span =~= dec_nat(m));
                        lemma_dec_nat_val(m);
                    }
                }
            }
            return None;
        }
        let val: i64 = if mag == 9_223_372_036_854_775_808u64 {
            i64::MIN
        } else {
            -(mag as i64)
        };
        proof {
            assert forall|x: int|
                i64::MIN <= x <= i64::MAX && text_at(s@, i as int, dec_rep(x)) && (i + dec_rep(
                    x,
                ).len() == n || !is_dec_digit(s@[i + dec_rep(x).len()])) implies val == x && j_end
                == i + dec_rep(x).len() by {
                let m = vstd::math::abs(x) as nat;
                assert(span =~= dec_nat(m));
                lemma_dec_nat_val(m);
            }
        }
        Some((val, j_end))
    } else {
        if mag > 9_223_372_036_854_775_807u64 {
            proof {
                assert forall|x: int|
                    !(i64::MIN <= x <= i64::MAX && text_at(s@, i as int, dec_rep(x)) && (i
                        + dec_rep(x).len() == n || !is_dec_digit(s@[i + dec_rep(x).len()]))) by {
                    if i64::MIN <= x <= i64::MAX && text_at(s@, i as int, dec_rep(x)) && (i
                        + dec_rep(x).len() == n || !is_dec_digit(s@[i + dec_rep(x).len()])) {
                        let m = vstd::math::abs(x) as nat;
                        assert(span =~= dec_nat(m));
                        lemma_dec_nat_val(m);
                    }
                }
            }
            return None;
        }
        let val: i64 = mag as i64;
        proof {
            assert forall|x: int|
                i64::MIN <= x <= i64::MAX && text_at(s@, i as int, dec_rep(x)) && (i + dec_rep(
                    x,
                ).len() == n || !is_dec_digit(s@[i + dec_rep(x).len()])) implies val == x && j_end
                == i + dec_rep(x).len() by {
                let m = vstd::math::abs(x) as nat;
                assert(span =~= dec_nat(m));
                lemma_dec_nat_val(m);
            }
        }
        Some((val, j_end))
    }
}

/// The one-character string for a digit.
fn digit_str(d: u64) -> (r: &'static str)
    requires
        d < 10,
    ensures
        r@ =~= seq![dec_digit(d as int)],
{
    proof {
        reveal_strlit("0");
        reveal_strlit("1");
        reveal_strlit("2");
        reveal_strlit("3");
        reveal_strlit("4");
        reveal_strlit("5");
        reveal_strlit("6");
        reveal_strlit("7");
        reveal_strlit("8");
        reveal_strlit("9");
    }
    match d {
        0 => "0",
        1 => "1",
        2 => "2",
        3 => "3",
        4 => "4",
        5 => "5",
        6 => "6",
        7 => "7",
        8 => "8",
        _ => "9",
    }
}

/// Appends the decimal digits of a natural number.
fn push_dec_u64(out: &mut String, m: u64)
    ensures
        final(out)@ == old(out)@ + dec_nat(m as nat),
    decreases m,
{
    if m >= 10 {
        push_dec_u64(out, m / 10);
        let ghost mid = out@;
        out.append(digit_str(m % 10));
        proof {
            assert(out@ =~= old(out)@ + dec_nat(m as nat));
        }
    } else {
        out.append(digit_str(m));
    }
}

/// Appends the decimal text of a 64-bit integer.
pub fn push_dec_i64(out: &mut String, x: i64)
    ensures
        final(out)@ == old(out)@ + dec_rep(x as int),
{
    if x < 0 {
        proof {
            reveal_strlit("-");
        }
        let ghost before = out@;
        out.append("-");
        proof {
            assert(out@ =~= before + seq!['-']);
        }
        let m: u64 = ((-(x + 1)) as u64) + 1;
        proof {
            assert(m as int == -(x as int));
        }
        push_dec_u64(out, m);
        proof {
            assert(out@ =~= old(out)@ + dec_rep(x as int));
        }
    } else {
        push_dec_u64(out, x as u64);
    }
}

} // verus!
