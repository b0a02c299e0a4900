//! Decimal and base-36 text rendering, with the spec-level model of both.

use vstd::prelude::*;

verus! {

/// The table of base-36 symbols: decimal digits first, then the lowercase
/// letters, so that symbol `d` sits at index `d`.
pub open spec fn base36_table() -> Seq<char> {
    "0123456789abcdefghijklmnopqrstuvwxyz"@
}

/// The character that renders the base-36 symbol value `d`.
pub open spec fn digit_char(d: int) -> char {
    base36_table()[d]
}

/// The canonical decimal rendering of `n`: no sign, no leading zeros.
pub open spec fn spec_decimal(n: nat) -> Seq<char>
    decreases n,
{
    if n < 10 {
        seq![digit_char(n as int)]
    } else {
        spec_decimal(n / 10).push(digit_char((n % 10) as int))
    }
}

/// Appends the base-36 symbol `d` to `s`.
pub fn push_digit(s: &mut String, d: u8)
    requires
        d < 36,
    ensures
        final(s)@ == old(s)@.push(digit_char(d as int)),
{
    let table = "0123456789abcdefghijklmnopqrstuvwxyz";
    proof {
        reveal_strlit("0123456789abcdefghijklmnopqrstuvwxyz");
    }
    let piece = table.substring_char(d as usize, d as usize + 1);
    proof {
        assert(piece@ =~= seq![digit_char(d as int)]);
    }
    s.append(piece);
}

/// Whether `c` is a decimal digit.
pub open spec fn is_digit(c: char) -> bool {
    '0' <= c && c <= '9'
}

/// The numeric value of the decimal digit `c`.
pub open spec fn digit_val(c: char) -> int {
    c as int - '0' as int
}

/// The value of reading the decimal digits `rest` after the digits already
/// read gave the value `cur`.
pub open spec fn combined_int(cur: int, rest: Seq<char>) -> int
    decreases rest.len(),
{
    if rest.len() == 0 {
        cur
    } else {
        combined_int(cur * 10 + digit_val(rest[0]), rest.drop_first())
    }
}

/// Every character of the canonical decimal rendering is a digit, and the
/// rendering is never empty.
pub proof fn lemma_decimal_digits(n: nat)
    ensures
        spec_decimal(n).len() >= 1,
        forall|i: int| 0 <= i < spec_decimal(n).len() ==> is_digit(#[trigger] spec_decimal(n)[i]),
    decreases n,
{
    reveal_strlit("0123456789abcdefghijklmnopqrstuvwxyz");
    if n >= 10 {
        lemma_decimal_digits(n / 10);
    }
}

/// Reading one more digit multiplies the value read so far by ten.
pub proof fn lemma_combined_push(cur: int, s: Seq<char>, c: char)
    ensures
        combined_int(cur, s.push(c)) == combined_int(cur, s) * 10 + digit_val(c),
    decreases s.len(),
{
    if s.len() == 0 {
        assert(s.push(c)[0] == c);
        assert(s.push(c).drop_first() =~= Seq::<char>::empty());
        assert(combined_int(cur * 10 + digit_val(c), Seq::<char>::empty()) == cur * 10 + digit_val(
            c,
        ));
    } else {
        assert(s.push(c)[0] == s[0]);
        assert(s.push(c).drop_first() =~= s.drop_first().push(c));
        lemma_combined_push(cur * 10 + digit_val(s[0]), s.drop_first(), c);
    }
}

/// Each of the first ten table entries renders its own value.
pub proof fn lemma_digit_char_val(d: int)
    requires
        0 <= d < 10,
    ensures
        digit_val(digit_char(d)) == d,
        is_digit(digit_char(d)),
{
    reveal_strlit("0123456789abcdefghijklmnopqrstuvwxyz");
}

/// Reading digits never decreases a non-negative value read so far.
pub proof fn lemma_combined_monotone(cur: int, rest: Seq<char>)
    requires
        cur >= 0,
        forall|i: int| 0 <= i < rest.len() ==> is_digit(#[trigger] rest[i]),
    ensures
        combined_int(cur, rest) >= cur,
    decreases rest.len(),
{
    if rest.len() > 0 {
        assert(is_digit(rest[0]));
        lemma_combined_monotone(cur * 10 + digit_val(rest[0]), rest.drop_first());
    }
}

/// Rendering inverts reading, one digit at a time.
pub proof fn lemma_digit_char_inverse(c: char)
    requires
        is_digit(c),
    ensures
        0 <= digit_val(c) <= 9,
        digit_char(digit_val(c)) == c,
{
    reveal_strlit("0123456789abcdefghijklmnopqrstuvwxyz");
}

/// The canonical rendering of a positive value never starts with a zero.
pub proof fn lemma_decimal_no_leading_zero(n: nat)
    requires
        n >= 1,
    ensures
        spec_decimal(n)[0] != '0',
    decreases n,
{
    reveal_strlit("0123456789abcdefghijklmnopqrstuvwxyz");
    if n >= 10 {
        lemma_decimal_no_leading_zero(n / 10);
        lemma_decimal_digits(n / 10);
    }
}

/// A digit string without a spurious leading zero is the canonical rendering
/// of the value it reads as: there is exactly one such rendering per value.
pub proof fn lemma_canonical_decimal(u: Seq<char>)
    requires
        u.len() >= 1,
        forall|i: int| 0 <= i < u.len() ==> is_digit(#[trigger] u[i]),
        u[0] != '0' || u.len() == 1,
    ensures
        combined_int(0, u) >= 0,
        spec_decimal(combined_int(0, u) as nat) == u,
    decreases u.len(),
{
    lemma_combined_monotone(0, u);
    if u.len() == 1 {
        lemma_digit_char_inverse(u[0]);
        assert(u.drop_first() =~= Seq::<char>::empty());
        assert(combined_int(digit_val(u[0]), Seq::<char>::empty()) == digit_val(u[0]));
        assert(combined_int(0, u) == digit_val(u[0]));
        assert(spec_decimal(digit_val(u[0]) as nat) =~= u);
    } else {
        let w = u.drop_last();
        let c = u.last();
        assert(u =~= w.push(c));
        lemma_combined_push(0, w, c);
        lemma_digit_char_inverse(c);
        lemma_digit_char_inverse(w[0]);
        // A nonzero leading digit keeps the prefix's value at one or more.
        assert(combined_int(0, w) == combined_int(digit_val(w[0]), w.drop_first()));
        lemma_combined_monotone(digit_val(w[0]), w.drop_first());
        assert(combined_int(0, w) >= 1);
        let n = combined_int(0, u);
        assert(n == combined_int(0, w) * 10 + digit_val(c));
        assert(n / 10 == combined_int(0, w));
        assert(n % 10 == digit_val(c));
        lemma_canonical_decimal(w);
        assert(spec_decimal(n as nat) =~= u);
    }
}

/// Reading the canonical decimal rendering of `n` yields `n` back.
pub proof fn lemma_decimal_value(n: nat)
    ensures
        combined_int(0, spec_decimal(n)) == n,
    decreases n,
{
    if n < 10 {
        lemma_digit_char_val(n as int);
        assert(seq![digit_char(n as int)][0] == digit_char(n as int));
        assert(seq![digit_char(n as int)].drop_first() =~= Seq::<char>::empty());
        assert(combined_int(digit_val(digit_char(n as int)), Seq::<char>::empty()) == digit_val(
            digit_char(n as int),
        ));
    } else {
        lemma_decimal_value(n / 10);
        lemma_digit_char_val((n % 10) as int);
        lemma_combined_push(0, spec_decimal(n / 10), digit_char((n % 10) as int));
    }
}

/// Renders `n` in decimal, matching the canonical spec rendering.
pub fn u64_to_decimal(n: u64) -> (r: String)
    ensures
        r@ == spec_decimal(n as nat),
    decreases n,
{
    if n < 10 {
        let mut s = String::new();
        push_digit(&mut s, n as u8);
        proof {
            assert(s@ =~= spec_decimal(n as nat));
        }
        s
    } else {
        let mut s = u64_to_decimal(n / 10);
        push_digit(&mut s, (n % 10) as u8);
        s
    }
}

} // verus!
