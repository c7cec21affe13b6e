//! How Debian orders upstream versions, and why a pre-release is written
//! after a `~`.

use vstd::prelude::*;

use crate::control::{deb_upstream_version_spec, mmp_text, Version};
use crate::text::{decimal, digit};

verus! {

/// An ASCII digit.
pub open spec fn is_digit(c: char) -> bool {
    48 <= (c as u32) <= 57
}

/// An ASCII letter.
pub open spec fn is_letter(c: char) -> bool {
    let u = c as u32;
    (65 <= u <= 90) || (97 <= u <= 122)
}

/// The weight of the first character of `s` where Debian compares the parts
/// that are not digits: `~` before everything, the end of the part (a digit,
/// or the end of the text) next, then letters, then all other characters.
pub open spec fn char_order(s: Seq<char>) -> int {
    if s.len() == 0 || is_digit(s[0]) {
        0
    } else if s[0] == '~' {
        -1
    } else if is_letter(s[0]) {
        s[0] as u32 as int
    } else {
        s[0] as u32 as int + 256
    }
}

/// The number of digits that `s` starts with.
pub open spec fn digit_run(s: Seq<char>) -> nat
    decreases s.len(),
{
    if s.len() > 0 && is_digit(s[0]) {
        1 + digit_run(s.drop_first())
    } else {
        0
    }
}

/// The number that the digits `s` write.
pub open spec fn digits_value(s: Seq<char>) -> int
    decreases s.len(),
{
    if s.len() == 0 {
        0
    } else {
        digits_value(s.drop_last()) * 10 + (s.last() as u32 - 48)
    }
}

/// A text starts with no more digits than it has characters.
pub proof fn lemma_digit_run_bound(s: Seq<char>)
    ensures
        digit_run(s) <= s.len(),
    decreases s.len(),
{
    if s.len() > 0 && is_digit(s[0]) {
        lemma_digit_run_bound(s.drop_first());
    }
}

/// Debian's comparison of two upstream versions: negative when `a` sorts
/// first, zero when they are equal, positive when `b` sorts first. The
/// texts are taken apart into alternating parts that are not digits,
/// compared character by character by `char_order`, and runs of digits,
/// compared as numbers.
pub open spec fn deb_version_order(a: Seq<char>, b: Seq<char>) -> int
    decreases a.len() + b.len(),
{
    if (a.len() > 0 && !is_digit(a[0])) || (b.len() > 0 && !is_digit(b[0])) {
        let ac = char_order(a);
        let bc = char_order(b);
        if ac != bc {
            ac - bc
        } else if a.len() > 0 && b.len() > 0 {
            deb_version_order(a.drop_first(), b.drop_first())
        } else {
            0
        }
    } else {
        let na = digit_run(a);
        let nb = digit_run(b);
        proof {
            lemma_digit_run_bound(a);
            lemma_digit_run_bound(b);
        }
        if na == 0 && nb == 0 {
            0
        } else {
            let va = digits_value(a.take(na as int));
            let vb = digits_value(b.take(nb as int));
            if va != vb {
                va - vb
            } else {
                deb_version_order(a.skip(na as int), b.skip(nb as int))
            }
        }
    }
}

/// Every character of `s` is a digit.
pub open spec fn all_digits(s: Seq<char>) -> bool {
    forall|i: int| 0 <= i < s.len() ==> is_digit(#[trigger] s[i])
}

/// `s` is empty or does not start with a digit.
pub open spec fn starts_without_digit(s: Seq<char>) -> bool {
    s.len() == 0 || !is_digit(s[0])
}

proof fn lemma_digit_run_of(d: Seq<char>, s: Seq<char>)
    requires
        all_digits(d),
        starts_without_digit(s),
    ensures
        digit_run(d + s) == d.len(),
    decreases d.len(),
{
    if d.len() > 0 {
        assert((d + s)[0] == d[0]);
        assert((d + s).drop_first() =~= d.drop_first() + s);
        lemma_digit_run_of(d.drop_first(), s);
    } else {
        assert(d + s =~= s);
    }
}

/// A run of digits that both texts start with, followed in each by
/// something else than a digit, does not decide their order.
proof fn lemma_order_common_digits(d: Seq<char>, s: Seq<char>, t: Seq<char>)
    requires
        d.len() > 0,
        all_digits(d),
        starts_without_digit(s),
        starts_without_digit(t),
    ensures
        deb_version_order(d + s, d + t) == deb_version_order(s, t),
{
    let a = d + s;
    let b = d + t;
    assert(a[0] == d[0] && b[0] == d[0]);
    lemma_digit_run_of(d, s);
    lemma_digit_run_of(d, t);
    assert(a.take(d.len() as int) =~= d);
    assert(b.take(d.len() as int) =~= d);
    assert(a.skip(d.len() as int) =~= s);
    assert(b.skip(d.len() as int) =~= t);
}

/// A character that is not a digit, starting both texts, does not decide
/// their order.
proof fn lemma_order_common_char(c: char, s: Seq<char>, t: Seq<char>)
    requires
        !is_digit(c),
    ensures
        deb_version_order(seq![c] + s, seq![c] + t) == deb_version_order(s, t),
{
    let a = seq![c] + s;
    let b = seq![c] + t;
    assert(a[0] == c && b[0] == c);
    assert(a.drop_first() =~= s);
    assert(b.drop_first() =~= t);
}

proof fn lemma_decimal_digits(n: nat)
    ensures
        decimal(n).len() > 0,
        all_digits(decimal(n)),
    decreases n,
{
    if n >= 10 {
        lemma_decimal_digits(n / 10);
        assert(is_digit(digit(n % 10)));
    } else {
        assert(is_digit(digit(n)));
    }
}

/// The Debian upstream version of a pre-release sorts before that of the
/// release it precedes: `M.m.p~pre` before `M.m.p`.
pub proof fn lemma_prerelease_sorts_first(v: Version)
    requires
        v.pre@.len() > 0,
    ensures
        deb_version_order(
            deb_upstream_version_spec(v),
            mmp_text(v.major, v.minor, v.patch),
        ) < 0,
{
    let d1 = decimal(v.major as nat);
    let d2 = decimal(v.minor as nat);
    let d3 = decimal(v.patch as nat);
    lemma_decimal_digits(v.major as nat);
    lemma_decimal_digits(v.minor as nat);
    lemma_decimal_digits(v.patch as nat);
    reveal_strlit(".");
    reveal_strlit("~");
    let dot = seq!['.'];
    let tail = seq!['~'] + v.pre@;
    let e = Seq::<char>::empty();
    assert(!is_digit('.'));
    assert(!is_digit('~'));
    // the last run of digits, then `~` against the end
    assert(deb_version_order(tail, e) < 0);
    lemma_order_common_digits(d3, tail, e);
    lemma_order_common_char('.', d3 + tail, d3 + e);
    lemma_order_common_digits(d2, dot + (d3 + tail), dot + (d3 + e));
    lemma_order_common_char('.', d2 + (dot + (d3 + tail)), d2 + (dot + (d3 + e)));
    lemma_order_common_digits(d1, dot + (d2 + (dot + (d3 + tail))), dot + (d2 + (dot + (d3 + e))));
    assert(deb_upstream_version_spec(v) =~= d1 + (dot + (d2 + (dot + (d3 + tail)))));
    assert(mmp_text(v.major, v.minor, v.patch) =~= d1 + (dot + (d2 + (dot + (d3 + e)))));
}

} // verus!
