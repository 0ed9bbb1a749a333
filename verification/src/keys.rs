use vstd::prelude::*;
use vstd::string::StrSliceExecFns;
use vstd::string::StringExecFns;

verus! {

// Textual keys of the prefixed key-value store have the form
// "<prefix>_<number>": the prefix, one '_', and a decimal u64. This module
// defines what such a key means and provides the verified text handling:
// rendering an identifier as decimal digits, finding the separator, and
// parsing the number exactly as the standard library's u64 parser does.

/// ASCII decimal digit.
pub open spec fn is_digit_char(c: char) -> bool {
    48 <= c as int <= 57
}

/// Numeric value of the digit `c`.
pub open spec fn digit_char_val(c: char) -> int {
    c as int - 48
}

/// The digit character standing for `d` (0 through 9).
pub open spec fn digit_char(d: int) -> char {
    if d == 0 {
        '0'
    } else if d == 1 {
        '1'
    } else if d == 2 {
        '2'
    } else if d == 3 {
        '3'
    } else if d == 4 {
        '4'
    } else if d == 5 {
        '5'
    } else if d == 6 {
        '6'
    } else if d == 7 {
        '7'
    } else if d == 8 {
        '8'
    } else {
        '9'
    }
}

/// Value of a digit string, most significant digit first.
pub open spec fn digits_val(s: Seq<char>) -> int
    decreases s.len(),
{
    if s.len() == 0 {
        0
    } else {
        digits_val(s.drop_last()) * 10 + digit_char_val(s.last())
    }
}

/// The canonical decimal digits of `n`: no sign, no leading zeros.
pub open spec fn decimal_digits(n: nat) -> Seq<char>
    decreases n,
{
    if n < 10 {
        seq![digit_char(n as int)]
    } else {
        decimal_digits(n / 10).push(digit_char((n % 10) as int))
    }
}

/// The digits of a numeric string once an optional leading '+' is dropped,
/// as the standard library's u64 parser reads it.
pub open spec fn unsigned_digits(s: Seq<char>) -> Seq<char> {
    if s.len() > 0 && s[0] == '+' {
        s.subrange(1, s.len() as int)
    } else {
        s
    }
}

/// Whether `s` parses as a u64: an optional leading '+', then at least one
/// decimal digit and nothing else, with a value that fits in the type.
pub open spec fn is_u64_string(s: Seq<char>) -> bool {
    let d = unsigned_digits(s);
    &&& d.len() > 0
    &&& (forall|i: int| 0 <= i < d.len() ==> is_digit_char(#[trigger] d[i]))
    &&& digits_val(d) <= u64::MAX
}

/// The u64 a numeric string denotes.
pub open spec fn u64_string_val(s: Seq<char>) -> u64 {
    digits_val(unsigned_digits(s)) as u64
}

/// Index of the last '_' in `s`, or -1 when none occurs.
pub open spec fn last_underscore(s: Seq<char>) -> int
    decreases s.len(),
{
    if s.len() == 0 {
        -1
    } else if s.last() == '_' {
        s.len() - 1
    } else {
        last_underscore(s.drop_last())
    }
}

/// How a textual key is read: split at the last '_'; what stands before it
/// is the prefix, what stands after it must parse as a u64.
pub open spec fn parse_key(s: Seq<char>) -> Option<(Seq<char>, u64)> {
    let p = last_underscore(s);
    if p >= 0 && is_u64_string(s.subrange(p + 1, s.len() as int)) {
        Some((s.subrange(0, p), u64_string_val(s.subrange(p + 1, s.len() as int))))
    } else {
        None
    }
}

/// The canonical textual key for `id` under `prefix`.
pub open spec fn key_text(prefix: Seq<char>, id: u64) -> Seq<char> {
    prefix + seq!['_'] + decimal_digits(id as nat)
}

/// `last_underscore` names the greatest index holding '_', if any.
pub proof fn lemma_last_underscore(s: Seq<char>)
    ensures
        -1 <= last_underscore(s) < s.len(),
        last_underscore(s) >= 0 ==> s[last_underscore(s)] == '_',
        forall|j: int| last_underscore(s) < j < s.len() ==> s[j] != '_',
    decreases s.len(),
{
    if s.len() > 0 && s.last() != '_' {
        lemma_last_underscore(s.drop_last());
        assert forall|j: int| last_underscore(s) < j < s.len() implies s[j] != '_' by {
            if j < s.len() - 1 {
                assert(s.drop_last()[j] == s[j]);
            }
        }
    }
}

/// The canonical digits of `n` are nonempty, all digits, and evaluate back
/// to `n`.
pub proof fn lemma_decimal_digits(n: nat)
    ensures
        decimal_digits(n).len() >= 1,
        forall|i: int|
            0 <= i < decimal_digits(n).len() ==> is_digit_char(#[trigger] decimal_digits(n)[i]),
        digits_val(decimal_digits(n)) == n,
    decreases n,
{
    if n < 10 {
        let c = digit_char(n as int);
        let one = decimal_digits(n);
        assert(is_digit_char(c) && digit_char_val(c) == n);
        assert(one.len() == 1 && one.last() == c);
        assert(one.drop_last() =~= Seq::<char>::empty());
        assert(digits_val(one.drop_last()) == 0);
        assert(digits_val(one) == digits_val(one.drop_last()) * 10 + digit_char_val(one.last()));
    } else {
        lemma_decimal_digits(n / 10);
        let d = decimal_digits(n / 10);
        let c = digit_char((n % 10) as int);
        let e = decimal_digits(n);
        assert(is_digit_char(c) && digit_char_val(c) == n % 10);
        assert(e == d.push(c));
        assert(e.drop_last() =~= d);
        assert(e.last() == c);
        assert(digits_val(e) == digits_val(e.drop_last()) * 10 + digit_char_val(e.last()));
        assert(digits_val(e) == (n / 10) * 10 + (n % 10));
        assert(n / 10 * 10 + n % 10 == n);
    }
}

/// A digit string is worth at least any of its leading parts, and at least 0.
pub proof fn lemma_digits_val_monotone(s: Seq<char>, m: int)
    requires
        0 <= m <= s.len(),
        forall|i: int| 0 <= i < s.len() ==> is_digit_char(#[trigger] s[i]),
    ensures
        digits_val(s) >= digits_val(s.subrange(0, m)),
        digits_val(s) >= 0,
    decreases s.len(),
{
    if s.len() == 0 {
        assert(s.subrange(0, m) =~= s);
    } else if m == s.len() {
        assert(s.subrange(0, m) =~= s);
        lemma_digits_val_monotone(s.drop_last(), s.len() - 1);
    } else {
        lemma_digits_val_monotone(s.drop_last(), m);
        assert(s.drop_last().subrange(0, m) =~= s.subrange(0, m));
        assert(digits_val(s.drop_last()) * 10 >= digits_val(s.drop_last()));
    }
}

/// Reading the canonical key back recovers the prefix and the identifier.
pub proof fn lemma_key_round_trip(prefix: Seq<char>, id: u64)
    ensures
        parse_key(key_text(prefix, id)) == Some((prefix, id)),
{
    let digits = decimal_digits(id as nat);
    let s = key_text(prefix, id);
    lemma_decimal_digits(id as nat);
    lemma_last_underscore(s);
    let plen = prefix.len() as int;
    assert(s.len() == prefix.len() + 1 + digits.len());
    assert(s[plen] == '_');
    assert forall|j: int| plen < j < s.len() implies s[j] != '_' by {
        assert(s[j] == digits[j - plen - 1]);
        assert(is_digit_char(digits[j - plen - 1]));
    }
    let p = last_underscore(s);
    if p < plen {
        assert(s[plen] != '_');
    }
    if p > plen {
        assert(s[p] != '_');
        assert(s[p] == '_');
    }
    assert(p == plen);
    let tail = s.subrange(p + 1, s.len() as int);
    assert(s.subrange(0, p) =~= prefix);
    assert(tail =~= digits);
    assert(unsigned_digits(digits) =~= digits);
    assert(is_u64_string(tail));
    assert(u64_string_val(tail) == id);
}

/// The decimal digit `d` as a one-character string.
fn digit_str(d: u64) -> (r: &'static str)
    requires
        d < 10,
    ensures
        r@ == seq![digit_char(d as int)],
{
    let r: &'static str = if d == 0 {
        "0"
    } else if d == 1 {
        "1"
    } else if d == 2 {
        "2"
    } else if d == 3 {
        "3"
    } else if d == 4 {
        "4"
    } else if d == 5 {
        "5"
    } else if d == 6 {
        "6"
    } else if d == 7 {
        "7"
    } else if d == 8 {
        "8"
    } else {
        "9"
    };
    proof {
        reveal_strlit("0");
        reveal_strlit("1");
        reveal_strlit("2");
        reveal_strlit("3");
        reveal_strlit("4");
        reveal_strlit("5");
        reveal_strlit("6");
        reveal_strlit("7");
        reveal_strlit("8");
        reveal_strlit("9");
        assert(r@ =~= seq![digit_char(d as int)]);
    }
    r
}

/// The canonical decimal text of `n`.
pub fn u64_to_string(n: u64) -> (s: String)
    ensures
        s@ == decimal_digits(n as nat),
    decreases n,
{
    if n < 10 {
        String::from_str(digit_str(n))
    } else {
        let mut s = u64_to_string(n / 10);
        let d = digit_str(n % 10);
        s.append(d);
        proof {
            assert(s@ =~= decimal_digits(n as nat));
        }
        s
    }
}

/// The canonical key "<prefix>_<id>" as a String.
pub fn format_key(prefix: &str, id: u64) -> (r: String)
    ensures
        r@ == key_text(prefix@, id),
{
    let mut r = String::from_str(prefix);
    r.append("_");
    let digits = u64_to_string(id);
    r.append(digits.as_str());
    proof {
        reveal_strlit("_");
        assert(r@ =~= key_text(prefix@, id));
    }
    r
}

/// Position of the last '_' in `s`, if any.
pub fn find_last_underscore(s: &str) -> (r: Option<usize>)
    ensures
        (match r {
            Some(p) => p == last_underscore(s@),
            None => last_underscore(s@) == -1,
        }),
{
    let n = s.unicode_len();
    let mut i = n;
    while i > 0
        invariant
            i <= n,
            n == s@.len(),
            forall|j: int| i <= j < n ==> s@[j] != '_',
        decreases i,
    {
        let c = s.get_char(i - 1);
        if c == '_' {
            proof {
                lemma_last_underscore(s@);
                let p = last_underscore(s@);
                if p < i - 1 {
                    assert(s@[i - 1] != '_');
                }
                if p > i - 1 {
                    assert(s@[p] != '_');
                    assert(s@[p] == '_');
                }
            }
            return Some(i - 1);
        }
        i -= 1;
    }
    proof {
        lemma_last_underscore(s@);
        let p = last_underscore(s@);
        if p >= 0 {
            assert(s@[p] != '_');
            assert(s@[p] == '_');
        }
    }
    None
}

/// Parses `s` as u64 exactly as the standard library does: an optional
/// leading '+', then decimal digits whose value fits in the type.
pub fn parse_u64(s: &str) -> (r: Option<u64>)
    ensures
        (match r {
            Some(v) => is_u64_string(s@) && v == u64_string_val(s@),
            None => !is_u64_string(s@),
        }),
{
    let n = s.unicode_len();
    let mut start: usize = 0;
    if n > 0 {
        let c0 = s.get_char(0);
        if c0 == '+' {
            start = 1;
        }
    }
    if start >= n {
        proof {
            assert(unsigned_digits(s@).len() == 0);
        }
        return None;
    }
    let ghost dseq = s@.subrange(start as int, n as int);
    proof {
        assert(unsigned_digits(s@) =~= dseq);
    }
    let mut acc: u64 = 0;
    let mut i = start;
    while i < n
        invariant
            start <= i <= n,
            start < n,
            n == s@.len(),
            dseq == s@.subrange(start as int, n as int),
            unsigned_digits(s@) == dseq,
            forall|k: int| start <= k < i ==> is_digit_char(#[trigger] s@[k]),
            acc == digits_val(s@.subrange(start as int, i as int)),
        decreases n - i,
    {
        let c = s.get_char(i);
        let v = c as u32;
        if v < 48 || v > 57 {
            proof {
                assert(!is_digit_char(s@[i as int]));
                assert(dseq[i - start] == s@[i as int]);
            }
            return None;
        }
        let d = (v - 48) as u64;
        proof {
            assert(is_digit_char(s@[i as int]));
            assert(digit_char_val(s@[i as int]) == d);
            assert(s@.subrange(start as int, i + 1).drop_last() =~= s@.subrange(
                start as int,
                i as int,
            ));
            assert(s@.subrange(start as int, i + 1).last() == s@[i as int]);
        }
        if acc > (u64::MAX - d) / 10 {
            proof {
                assert(acc * 10 + d > u64::MAX) by (nonlinear_arith)
                    requires
                        acc > (u64::MAX - d) / 10,
                        d <= 9,
                ;
                if is_u64_string(s@) {
                    lemma_digits_val_monotone(dseq, i + 1 - start);
                    assert(dseq.subrange(0, i + 1 - start) =~= s@.subrange(start as int, i + 1));
                    assert(digits_val(s@.subrange(start as int, i + 1)) == acc * 10 + d);
                }
            }
            return None;
        }
        proof {
            assert(acc * 10 + d <= u64::MAX) by (nonlinear_arith)
                requires
                    acc <= (u64::MAX - d) / 10,
                    d <= 9,
            ;
        }
        acc = acc * 10 + d;
        i += 1;
    }
    proof {
        assert(s@.subrange(start as int, n as int) == dseq);
        assert(dseq.len() > 0);
        assert forall|k: int| 0 <= k < dseq.len() implies is_digit_char(#[trigger] dseq[k]) by {
            assert(dseq[k] == s@[k + start]);
        }
        assert(is_u64_string(s@));
    }
    Some(acc)
}

} // verus!
