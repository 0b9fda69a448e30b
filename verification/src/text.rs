//! Characters, decimal digit strings, and conversions between `String`
//! and `Vec<char>`. Every other module builds its text through these
//! helpers, so the decimal spec functions here are the single authority
//! for how numbers are written and read.

use vstd::prelude::*;
use vstd::string::{StrSliceExecFns, StringExecFns};

verus! {

/// Relies on `String::push`: appends exactly the given character.
#[verifier::external_body]
pub(crate) fn push_char(s: &mut String, c: char)
    ensures
        final(s)@ == old(s)@.push(c),
{
    s.push(c)
}

/// Relies on `String::pop`: removes exactly the last character, and
/// leaves an empty string as it is.
#[verifier::external_body]
pub(crate) fn pop_char(s: &mut String)
    ensures
        old(s)@.len() == 0 ==> final(s)@ == old(s)@,
        old(s)@.len() > 0 ==> final(s)@ == old(s)@.drop_last(),
{
    let _ = s.pop();
}

/// The characters of a string, as a vector.
pub fn str_to_chars(s: &str) -> (r: Vec<char>)
    ensures
        r@ == s@,
{
    let n = s.unicode_len();
    let mut r: Vec<char> = Vec::new();
    let mut i: usize = 0;
    while i < n
        invariant
            i <= n,
            n == s@.len(),
            r@ == s@.subrange(0, i as int),
        decreases n - i,
    {
        let c = s.get_char(i);
        r.push(c);
        proof {
            assert(s@.subrange(0, i as int).push(s@[i as int]) =~= s@.subrange(0, i + 1 as int));
        }
        i += 1;
    }
    proof {
        assert(s@.subrange(0, n as int) =~= s@);
    }
    r
}

/// A string holding exactly the given characters.
pub fn chars_to_string(v: &Vec<char>) -> (r: String)
    ensures
        r@ == v@,
{
    chars_range_to_string(v, 0, v.len())
}

/// A string holding the characters of `v` from index `from` (inclusive)
/// to `to` (exclusive).
pub fn chars_range_to_string(v: &Vec<char>, from: usize, to: usize) -> (r: String)
    requires
        from <= to <= v@.len(),
    ensures
        r@ == v@.subrange(from as int, to as int),
{
    let mut r = String::new();
    let mut i: usize = from;
    while i < to
        invariant
            from <= i <= to <= v@.len(),
            r@ == v@.subrange(from as int, i as int),
        decreases to - i,
    {
        push_char(&mut r, v[i]);
        proof {
            assert(v@.subrange(from as int, i as int).push(v@[i as int]) =~= v@.subrange(
                from as int,
                i + 1 as int,
            ));
        }
        i += 1;
    }
    r
}

/// Whether the string holds exactly the given literal text.
pub(crate) fn string_eq_str(s: &String, lit: &str) -> (r: bool)
    ensures
        r == (s@ == lit@),
{
    let other = String::from_str(lit);
    s.eq(&other)
}

/// Whether `c` is a decimal digit.
pub open spec fn spec_is_digit(c: char) -> bool {
    48 <= c as int <= 57
}

/// The numeric value of a digit character.
pub open spec fn spec_digit_val(c: char) -> int {
    c as int - 48
}

/// The digit character for a value in 0 through 9.
pub open spec fn spec_digit_char(n: int) -> char {
    if n == 0 {
        '0'
    } else if n == 1 {
        '1'
    } else if n == 2 {
        '2'
    } else if n == 3 {
        '3'
    } else if n == 4 {
        '4'
    } else if n == 5 {
        '5'
    } else if n == 6 {
        '6'
    } else if n == 7 {
        '7'
    } else if n == 8 {
        '8'
    } else {
        '9'
    }
}

/// The canonical decimal digit string of `n`: no sign, no leading zero
/// except for `n == 0` itself.
pub open spec fn spec_dec(n: nat) -> Seq<char>
    decreases n,
{
    if n < 10 {
        seq![spec_digit_char(n as int)]
    } else {
        spec_dec(n / 10).push(spec_digit_char((n % 10) as int))
    }
}

/// The numeric value of a digit string (0 for the empty string).
pub open spec fn spec_dec_value(s: Seq<char>) -> nat
    decreases s.len(),
{
    if s.len() == 0 {
        0
    } else {
        spec_dec_value(s.drop_last()) * 10 + (if spec_is_digit(s.last()) {
            spec_digit_val(s.last()) as nat
        } else {
            0
        })
    }
}

/// Whether every character of `s` is a decimal digit.
pub open spec fn spec_all_digits(s: Seq<char>) -> bool {
    forall|i: int| 0 <= i < s.len() ==> spec_is_digit(#[trigger] s[i])
}

/// The digit characters carry exactly the digit values.
pub proof fn lemma_digit_char_val(m: int)
    requires
        0 <= m < 10,
    ensures
        spec_is_digit(spec_digit_char(m)),
        spec_digit_val(spec_digit_char(m)) == m,
{
}

pub proof fn lemma_dec_props(n: nat)
    ensures
        spec_dec(n).len() >= 1,
        spec_all_digits(spec_dec(n)),
        spec_dec_value(spec_dec(n)) == n,
        n < 10 <==> spec_dec(n).len() == 1,
        spec_dec(n)[0] != '0' || n == 0,
    decreases n,
{
    if n < 10 {
        lemma_digit_char_val(n as int);
        assert(spec_dec(n) =~= seq![spec_digit_char(n as int)]);
        assert(spec_dec(n).drop_last() =~= Seq::<char>::empty());
        assert(spec_dec_value(Seq::<char>::empty()) == 0);
        assert(spec_dec(n).last() == spec_digit_char(n as int));
        assert(spec_dec_value(spec_dec(n)) == 0 * 10 + spec_digit_val(spec_digit_char(n as int)));
    } else {
        lemma_dec_props(n / 10);
        lemma_digit_char_val((n % 10) as int);
        vstd::arithmetic::div_mod::lemma_fundamental_div_mod(n as int, 10);
        let s = spec_dec(n);
        assert(s =~= spec_dec(n / 10).push(spec_digit_char((n % 10) as int)));
        assert(s.drop_last() =~= spec_dec(n / 10));
        assert(s.last() == spec_digit_char((n % 10) as int));
        assert(forall|i: int| 0 <= i < s.len() ==> spec_is_digit(#[trigger] s[i])) by {
            assert(forall|i: int| 0 <= i < s.len() - 1 ==> s[i] == spec_dec(n / 10)[i]);
        }
        assert(spec_dec_value(s) == spec_dec_value(spec_dec(n / 10)) * 10 + spec_digit_val(
            spec_digit_char((n % 10) as int),
        ));
        assert(s[0] == spec_dec(n / 10)[0]);
    }
}

/// The digit character for a digit value.
pub(crate) fn digit_char(n: u64) -> (r: char)
    requires
        n < 10,
    ensures
        r == spec_digit_char(n as int),
{
    if n == 0 {
        '0'
    } else if n == 1 {
        '1'
    } else if n == 2 {
        '2'
    } else if n == 3 {
        '3'
    } else if n == 4 {
        '4'
    } else if n == 5 {
        '5'
    } else if n == 6 {
        '6'
    } else if n == 7 {
        '7'
    } else if n == 8 {
        '8'
    } else {
        '9'
    }
}

/// Appends the canonical decimal digits of `n` to `out`.
pub(crate) fn push_dec(out: &mut Vec<char>, n: u64)
    ensures
        final(out)@ == old(out)@ + spec_dec(n as nat),
    decreases n,
{
    if n < 10 {
        out.push(digit_char(n));
        proof {
            assert(out@ =~= old(out)@ + spec_dec(n as nat));
        }
    } else {
        assert(n / 10 < n) by (nonlinear_arith)
            requires
                n >= 10,
        ;
        push_dec(out, n / 10);
        out.push(digit_char(n % 10));
        proof {
            assert(out@ =~= old(out)@ + spec_dec(n as nat));
        }
    }
}

/// Whether `c` is a decimal digit.
pub(crate) fn is_digit(c: char) -> (r: bool)
    ensures
        r == spec_is_digit(c),
{
    let u = c as u32;
    48 <= u && u <= 57
}

/// A digit string's value only grows as more digits are taken.
pub proof fn lemma_dec_value_take(s: Seq<char>, k: int)
    requires
        0 <= k <= s.len(),
        spec_all_digits(s),
    ensures
        spec_dec_value(s.take(k)) <= spec_dec_value(s),
    decreases s.len() - k,
{
    if k < s.len() {
        lemma_dec_value_take(s, k + 1);
        assert(s.take(k + 1).drop_last() =~= s.take(k));
        assert(s.take(k + 1).last() == s[k]);
        assert(spec_dec_value(s.take(k + 1)) >= spec_dec_value(s.take(k)));
    } else {
        assert(s.take(k) =~= s);
    }
}

/// A digit character is recovered from its value.
pub proof fn lemma_digit_char_of_val(c: char)
    requires
        spec_is_digit(c),
    ensures
        spec_digit_char(spec_digit_val(c)) == c,
{
}

/// A canonical digit string (nonempty, no leading zero, value within
/// 64 bits) is exactly the written form of its value.
pub proof fn lemma_canonical_dec(s: Seq<char>)
    requires
        s.len() > 0,
        spec_all_digits(s),
        s.len() == 1 || s[0] != '0',
        spec_dec_value(s) <= u64::MAX as nat,
    ensures
        s == spec_dec(spec_dec_value(s)),
    decreases s.len(),
{
    let v = spec_dec_value(s);
    if s.len() == 1 {
        assert(s.drop_last() =~= Seq::<char>::empty());
        assert(spec_dec_value(Seq::<char>::empty()) == 0);
        assert(s.last() == s[0]);
        lemma_digit_char_of_val(s[0]);
        assert(v == spec_digit_val(s[0]));
        assert(spec_dec(v) =~= seq![spec_digit_char(v as int)]);
        assert(s =~= spec_dec(v));
    } else {
        let head = s.drop_last();
        let d = spec_digit_val(s.last());
        assert(spec_all_digits(head)) by {
            assert(forall|i: int| 0 <= i < head.len() ==> head[i] == s[i]);
        }
        assert(head[0] == s[0]);
        assert(spec_dec_value(head.take(1)) <= spec_dec_value(head)) by {
            lemma_dec_value_take(head, 1);
        }
        assert(head.take(1).drop_last() =~= Seq::<char>::empty());
        assert(head.take(1).last() == head[0]);
        assert(spec_dec_value(Seq::<char>::empty()) == 0);
        assert(spec_is_digit(head[0]));
        assert(head.take(1).len() == 1);
        assert(spec_dec_value(head.take(1)) == spec_digit_val(head[0]));
        assert(spec_digit_val(head[0]) >= 1);
        assert(spec_dec_value(head) >= 1);
        assert(v == spec_dec_value(head) * 10 + d);
        assert(spec_dec_value(head) * 10 >= 10);
        assert(spec_dec_value(head) <= u64::MAX as nat);
        lemma_canonical_dec(head);
        vstd::arithmetic::div_mod::lemma_fundamental_div_mod_converse(
            v as int,
            10,
            spec_dec_value(head) as int,
            d,
        );
        assert(v / 10 == spec_dec_value(head));
        assert(v % 10 == d);
        lemma_digit_char_of_val(s.last());
        assert(spec_dec(v) == spec_dec(spec_dec_value(head)).push(spec_digit_char(d)));
        assert(spec_dec(v) == head.push(s.last()));
        assert(head.push(s.last()) =~= s);
    }
}

/// The exact value of the digit characters of `v` in `[from, to)`, or
/// nothing when the written number does not fit in 64 bits.
pub(crate) fn parse_dec_checked(v: &Vec<char>, from: usize, to: usize) -> (r: Option<u64>)
    requires
        from <= to <= v@.len(),
        spec_all_digits(v@.subrange(from as int, to as int)),
    ensures
        r is Some <==> spec_dec_value(v@.subrange(from as int, to as int)) <= u64::MAX as nat,
        r is Some ==> r->0 as nat == spec_dec_value(v@.subrange(from as int, to as int)),
{
    let ghost sub = v@.subrange(from as int, to as int);
    let mut acc: u64 = 0;
    let mut i: usize = from;
    proof {
        assert(sub.take(0) =~= Seq::<char>::empty());
    }
    while i < to
        invariant
            from <= i <= to <= v@.len(),
            sub == v@.subrange(from as int, to as int),
            spec_all_digits(sub),
            acc as nat == spec_dec_value(sub.take(i - from)),
        decreases to - i,
    {
        let ghost pre = sub.take(i - from);
        let ghost post = sub.take(i + 1 - from);
        proof {
            assert(post.drop_last() =~= pre);
            assert(post.last() == sub[i - from]);
            assert(sub[i - from] == v@[i as int]);
        }
        let c = v[i];
        let d: u64 = (c as u32 - 48) as u64;
        assert(spec_dec_value(post) == spec_dec_value(pre) * 10 + d);
        if acc > (u64::MAX - d) / 10 {
            proof {
                assert(acc * 10 + d > u64::MAX) by (nonlinear_arith)
                    requires
                        acc > (u64::MAX - d) / 10,
                        d < 10,
                ;
                lemma_dec_value_take(sub, i + 1 - from);
            }
            return None;
        }
        proof {
            assert(acc * 10 + d <= u64::MAX) by (nonlinear_arith)
                requires
                    acc <= (u64::MAX - d) / 10,
                    d < 10,
            ;
        }
        acc = acc * 10 + d;
        i += 1;
    }
    proof {
        assert(sub.take(to - from) =~= sub);
    }
    Some(acc)
}

/// The value of the digit characters of `v` in `[from, to)`, saturating
/// at `u64::MAX` when the written number is larger.
pub(crate) fn parse_dec_saturating(v: &Vec<char>, from: usize, to: usize) -> (r: u64)
    requires
        from <= to <= v@.len(),
        spec_all_digits(v@.subrange(from as int, to as int)),
    ensures
        r as int == if spec_dec_value(v@.subrange(from as int, to as int)) <= u64::MAX as int {
            spec_dec_value(v@.subrange(from as int, to as int)) as int
        } else {
            u64::MAX as int
        },
{
    let mut acc: u64 = 0;
    let mut i: usize = from;
    proof {
        assert(v@.subrange(from as int, from as int) =~= Seq::<char>::empty());
    }
    while i < to
        invariant
            from <= i <= to <= v@.len(),
            spec_all_digits(v@.subrange(from as int, to as int)),
            acc as int == if spec_dec_value(v@.subrange(from as int, i as int)) <= u64::MAX as int {
                spec_dec_value(v@.subrange(from as int, i as int)) as int
            } else {
                u64::MAX as int
            },
        decreases to - i,
    {
        let ghost pre = v@.subrange(from as int, i as int);
        let ghost post = v@.subrange(from as int, i + 1 as int);
        proof {
            assert(v@.subrange(from as int, to as int)[i - from] == v@[i as int]);
            assert(post.drop_last() =~= pre);
            assert(post.last() == v@[i as int]);
        }
        let c = v[i];
        let d: u64 = (c as u32 - 48) as u64;
        assert(spec_dec_value(post) == spec_dec_value(pre) * 10 + d);
        if acc > (u64::MAX - d) / 10 {
            proof {
                assert(acc * 10 + d > u64::MAX) by (nonlinear_arith)
                    requires
                        acc > (u64::MAX - d) / 10,
                        d < 10,
                ;
                if spec_dec_value(pre) > acc as int {
                    assert(spec_dec_value(pre) * 10 + d >= acc * 10 + d) by (nonlinear_arith)
                        requires
                            spec_dec_value(pre) > acc as int,
                            d >= 0,
                    ;
                }
            }
            acc = u64::MAX;
        } else {
            proof {
                assert(acc * 10 + d <= u64::MAX) by (nonlinear_arith)
                    requires
                        acc <= (u64::MAX - d) / 10,
                        d < 10,
                ;
                assert((u64::MAX - d) / 10 < u64::MAX) by (nonlinear_arith)
                    requires
                        d < 10,
                ;
                assert(acc as int == spec_dec_value(pre));
            }
            acc = acc * 10 + d;
        }
        i += 1;
    }
    acc
}

} // verus!
