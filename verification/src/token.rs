//! State tokens: the decimal string rendering of a collection's modseq.
//!
//! A state token is the decimal rendering of a nonnegative modseq value.
//! Clients hand tokens back as sync cursors; parsing follows the rule the
//! server has always applied: an unparsable or negative token counts as 0.

use vstd::prelude::*;

verus! {

/// The decimal digit character for a value between 0 and 9.
pub open spec fn digit_char(d: int) -> char
    recommends
        0 <= d < 10,
{
    if d == 0 {
        '0'
    } else if d == 1 {
        '1'
    } else if d == 2 {
        '2'
    } else if d == 3 {
        '3'
    } else if d == 4 {
        '4'
    } else if d == 5 {
        '5'
    } else if d == 6 {
        '6'
    } else if d == 7 {
        '7'
    } else if d == 8 {
        '8'
    } else {
        '9'
    }
}

/// The decimal rendering of a nonnegative integer, without sign or padding.
pub open spec fn dec_str(n: int) -> Seq<char>
    recommends
        n >= 0,
    decreases n,
{
    if n < 10 {
        seq![digit_char(n)]
    } else {
        dec_str(n / 10).push(digit_char(n % 10))
    }
}

/// Whether `c` is an ASCII decimal digit.
pub open spec fn is_digit(c: char) -> bool {
    48 <= c as int <= 57
}

/// Whether every character of `s` is an ASCII decimal digit.
pub open spec fn all_digits(s: Seq<char>) -> bool {
    forall|i: int| 0 <= i < s.len() ==> is_digit(#[trigger] s[i])
}

/// The value of a sequence of decimal digits, most significant first.
pub open spec fn digits_val(s: Seq<char>) -> int
    decreases s.len(),
{
    if s.len() == 0 {
        0
    } else {
        digits_val(s.drop_last()) * 10 + (s.last() as int - 48)
    }
}

/// How a client-supplied state token is read: an optional leading `+` is
/// accepted, any negative, malformed or out-of-range token counts as 0.
pub open spec fn parse_state(s: Seq<char>) -> int {
    let body = if s.len() > 0 && s[0] == '+' {
        s.skip(1)
    } else {
        s
    };
    if s.len() > 0 && s[0] == '-' {
        0
    } else if body.len() > 0 && all_digits(body) && digits_val(body) <= i64::MAX {
        digits_val(body)
    } else {
        0
    }
}

proof fn lemma_digits_val_nonneg(s: Seq<char>)
    requires
        all_digits(s),
    ensures
        digits_val(s) >= 0,
    decreases s.len(),
{
    if s.len() > 0 {
        assert(all_digits(s.drop_last())) by {
            assert(forall|i: int|
                0 <= i < s.len() - 1 ==> #[trigger] s.drop_last()[i] == s[i]);
        }
        lemma_digits_val_nonneg(s.drop_last());
    }
}

/// The parsed value of any token is a valid modseq bound.
pub proof fn lemma_parse_state_in_range(s: Seq<char>)
    ensures
        0 <= parse_state(s) <= i64::MAX,
{
    let body = if s.len() > 0 && s[0] == '+' {
        s.skip(1)
    } else {
        s
    };
    if !(s.len() > 0 && s[0] == '-') && body.len() > 0 && all_digits(body)
        && digits_val(body) <= i64::MAX {
        lemma_digits_val_nonneg(body);
    }
}

/// Once a digit prefix exceeds the representable range, any extension of it
/// still does.
pub proof fn lemma_digits_val_grows(s: Seq<char>, k: int)
    requires
        all_digits(s),
        0 <= k <= s.len(),
    ensures
        digits_val(s) >= digits_val(s.take(k)),
    decreases s.len() - k,
{
    if k < s.len() {
        let t = s.take(k + 1);
        assert(t.drop_last() =~= s.take(k));
        assert(all_digits(s.take(k + 1))) by {
            assert(forall|i: int|
                0 <= i < k + 1 ==> #[trigger] s.take(k + 1)[i] == s[i]);
        }
        assert(all_digits(s.take(k))) by {
            assert(forall|i: int| 0 <= i < k ==> #[trigger] s.take(k)[i] == s[i]);
        }
        lemma_digits_val_nonneg(s.take(k));
        assert(digits_val(t) == digits_val(s.take(k)) * 10 + (s[k] as int - 48));
        assert(digits_val(t) >= digits_val(s.take(k)));
        lemma_digits_val_grows(s, k + 1);
        assert(s.take(s.len() as int) =~= s);
    } else {
        assert(s.take(k) =~= s);
    }
}

/// A decimal rendering is one or more digits, without a superfluous
/// leading zero.
pub proof fn lemma_dec_str_shape(n: int)
    requires
        n >= 0,
    ensures
        all_digits(dec_str(n)),
        dec_str(n).len() >= 1,
        n >= 1 ==> dec_str(n)[0] != '0',
        n == 0 ==> dec_str(n)[0] == '0',
    decreases n,
{
    if n < 10 {
        assert(dec_str(n) =~= seq![digit_char(n)]);
        assert(48 <= digit_char(n) as int <= 57);
        if n >= 1 {
            assert(digit_char(n) != '0');
        }
    } else {
        lemma_dec_str_shape(n / 10);
        let pre = dec_str(n / 10);
        assert(dec_str(n) == pre.push(digit_char(n % 10)));
        assert(48 <= digit_char(n % 10) as int <= 57);
        assert forall|i: int| 0 <= i < dec_str(n).len() implies is_digit(
            #[trigger] dec_str(n)[i],
        ) by {
            if i < pre.len() {
                assert(dec_str(n)[i] == pre[i]);
            }
        }
        assert(dec_str(n)[0] == pre[0]);
    }
}

/// Reading a decimal rendering back yields the value it renders.
pub proof fn lemma_dec_str_val(n: int)
    requires
        n >= 0,
    ensures
        digits_val(dec_str(n)) == n,
    decreases n,
{
    if n < 10 {
        assert(dec_str(n) =~= seq![digit_char(n)]);
        assert(dec_str(n).drop_last() =~= Seq::<char>::empty());
        assert(digits_val(Seq::<char>::empty()) == 0);
        assert(digit_char(n) as int - 48 == n);
    } else {
        lemma_dec_str_val(n / 10);
        let pre = dec_str(n / 10);
        let full = dec_str(n);
        assert(full == pre.push(digit_char(n % 10)));
        assert(full.drop_last() =~= pre);
        assert(full.last() == digit_char(n % 10));
        assert(digit_char(n % 10) as int - 48 == n % 10);
        assert(digits_val(full) == (n / 10) * 10 + n % 10);
    }
}

/// A single decimal digit as a string slice.
fn digit_literal(d: i64) -> (s: &'static str)
    requires
        0 <= d < 10,
    ensures
        s@ =~= seq![digit_char(d as int)],
{
    proof {
        reveal_strlit("0");
        reveal_strlit("1");
        reveal_strlit("2");
        reveal_strlit("3");
        reveal_strlit("4");
        reveal_strlit("5");
        reveal_strlit("6");
        reveal_strlit("7");
        reveal_strlit("8");
        reveal_strlit("9");
    }
    match d {
        0 => "0",
        1 => "1",
        2 => "2",
        3 => "3",
        4 => "4",
        5 => "5",
        6 => "6",
        7 => "7",
        8 => "8",
        _ => "9",
    }
}

/// Renders an unsigned value in decimal.
pub fn render_u64(n: u64) -> (s: String)
    ensures
        s@ == dec_str(n as int),
    decreases n,
{
    if n < 10 {
        let d = digit_literal(n as i64);
        let s = String::from_str(d);
        assert(s@ =~= dec_str(n as int));
        s
    } else {
        let mut s = render_u64(n / 10);
        s.append(digit_literal((n % 10) as i64));
        assert(s@ =~= dec_str(n as int));
        s
    }
}

/// Renders a nonnegative modseq as a state token.
pub fn render_state(n: i64) -> (s: String)
    requires
        n >= 0,
    ensures
        s@ == dec_str(n as int),
{
    render_u64(n as u64)
}

/// Parses a client-supplied state token; anything negative, malformed or out
/// of range counts as 0.
pub fn parse_state_str(s: &str) -> (n: i64)
    ensures
        n == parse_state(s@),
        n >= 0,
{
    let len = s.unicode_len();
    if len == 0 {
        return 0;
    }
    let first = s.get_char(0);
    if first == '-' {
        return 0;
    }
    let start: usize = if first == '+' {
        1
    } else {
        0
    };
    let ghost body = if first == '+' {
        s@.skip(1)
    } else {
        s@
    };
    assert(body.len() == len - start);
    assert(forall|i: int|
        0 <= i < body.len() ==> #[trigger] body[i] == s@[i + start]);
    if start == len {
        return 0;
    }
    let mut acc: i64 = 0;
    let mut j: usize = start;
    while j < len
        invariant
            start <= j <= len,
            len == s@.len(),
            start == 0 || start == 1,
            start == 1 ==> s@.len() > 0 && s@[0] == '+',
            start == 0 ==> !(s@.len() > 0 && s@[0] == '+'),
            s@.len() > 0 && !(s@[0] == '-'),
            body == (if s@.len() > 0 && s@[0] == '+' { s@.skip(1) } else { s@ }),
            body.len() == len - start,
            forall|i: int| 0 <= i < body.len() ==> #[trigger] body[i] == s@[i + start],
            all_digits(body.take(j - start)),
            acc == digits_val(body.take(j - start)),
            0 <= acc <= i64::MAX,
        decreases len - j,
    {
        let c = s.get_char(j);
        assert(c == body[j - start]);
        let cv = c as u32;
        if cv < 48 || cv > 57 {
            assert(!is_digit(body[j - start]));
            assert(!all_digits(body));
            return 0;
        }
        let d: i64 = (cv - 48) as i64;
        let ghost pre = body.take(j - start);
        let ghost ext = body.take(j + 1 - start);
        proof {
            assert(ext.drop_last() =~= pre);
            assert(ext.last() == body[j - start]);
            assert(digits_val(ext) == digits_val(pre) * 10 + d);
            assert(all_digits(ext)) by {
                assert(forall|i: int|
                    0 <= i < ext.len() ==> #[trigger] ext[i] == body[i]);
            }
        }
        if acc > (i64::MAX - d) / 10 {
            proof {
                assert(digits_val(ext) > i64::MAX) by (nonlinear_arith)
                    requires
                        digits_val(ext) == digits_val(pre) * 10 + d,
                        acc == digits_val(pre),
                        acc > (i64::MAX - d) / 10,
                        0 <= d < 10,
                        acc >= 0,
                ;
                if all_digits(body) {
                    lemma_digits_val_grows(body, j + 1 - start);
                    assert(body.take(body.len() as int) =~= body);
                    lemma_digits_val_nonneg(ext);
                }
            }
            return 0;
        }
        acc = acc * 10 + d;
        j = j + 1;
    }
    proof {
        assert(body.take(len - start) =~= body);
    }
    acc
}

} // verus!
