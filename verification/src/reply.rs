//! The oracle's structured reply: a strict JSON object holding one integer
//! array named `result`, parsed back into a list of positions.

use vstd::prelude::*;

use crate::text::{
    combined_int, digit_char, digit_val, is_digit, lemma_canonical_decimal,
    lemma_combined_monotone, lemma_decimal_digits, lemma_decimal_no_leading_zero,
    lemma_decimal_value, spec_decimal,
};

verus! {

/// The fixed shell that opens a reply, up to and including the bracket that
/// opens the position list.
pub open spec fn reply_prefix() -> Seq<char> {
    "{\"result\":["@
}

/// Whether the close of the reply stands at `i`: the closing bracket, the
/// closing brace, and then the end of the text.
pub open spec fn close_ok(s: Seq<char>, i: int) -> bool {
    &&& i + 2 == s.len()
    &&& s[i] == ']'
    &&& s[i + 1] == '}'
}

/// Parses from the first character of one position: a digit must stand
/// here, and a zero digit can only stand alone.
pub open spec fn pa_list(s: Seq<char>, i: int) -> Option<Seq<u64>>
    decreases s.len() - i, 1int,
{
    if i < 0 || i >= s.len() {
        None
    } else if s[i] == '0' {
        pa_zero(s, i + 1)
    } else if is_digit(s[i]) {
        pa_innum(s, i + 1, digit_val(s[i]) as u64)
    } else {
        None
    }
}

/// Parses after a lone zero, which no digit may extend: a comma starts the
/// next position, and the close ends the list.
pub open spec fn pa_zero(s: Seq<char>, i: int) -> Option<Seq<u64>>
    decreases s.len() - i, 0int,
{
    if i < 0 || i >= s.len() {
        None
    } else if is_digit(s[i]) {
        None
    } else if s[i] == ',' {
        match pa_list(s, i + 1) {
            Some(rest) => Some(seq![0u64] + rest),
            None => None,
        }
    } else if close_ok(s, i) {
        Some(seq![0u64])
    } else {
        None
    }
}

/// Parses after one or more digits of the current position, whose value so
/// far is `cur`: another digit extends it, a comma starts the next position,
/// and the close ends the list.
pub open spec fn pa_innum(s: Seq<char>, i: int, cur: u64) -> Option<Seq<u64>>
    decreases s.len() - i, 0int,
{
    if i < 0 || i >= s.len() {
        None
    } else if is_digit(s[i]) {
        if cur * 10 + digit_val(s[i]) > u64::MAX {
            None
        } else {
            pa_innum(s, i + 1, (cur * 10 + digit_val(s[i])) as u64)
        }
    } else if s[i] == ',' {
        match pa_list(s, i + 1) {
            Some(rest) => Some(seq![cur] + rest),
            None => None,
        }
    } else if close_ok(s, i) {
        Some(seq![cur])
    } else {
        None
    }
}

/// What a reply means: the position list if the text is exactly the strict
/// shell around decimal positions, nothing otherwise. No spaces, no signs,
/// no leading zeros beyond the digits written, no value over 64 bits.
pub open spec fn parse_reply_chars(s: Seq<char>) -> Option<Seq<u64>> {
    if s.len() >= 13 && s.subrange(0, 11) == reply_prefix() {
        if close_ok(s, 11) {
            Some(Seq::<u64>::empty())
        } else {
            pa_list(s, 11)
        }
    } else {
        None
    }
}

/// Whether `c` is one of the four insignificant JSON whitespace characters.
pub open spec fn is_json_ws(c: char) -> bool {
    c == ' ' || c == '\t' || c == '\n' || c == '\r'
}

/// The text with every insignificant whitespace character removed.
pub open spec fn strip_ws_spec(s: Seq<char>) -> Seq<char>
    decreases s.len(),
{
    if s.len() == 0 {
        Seq::<char>::empty()
    } else if is_json_ws(s[0]) {
        strip_ws_spec(s.drop_first())
    } else {
        seq![s[0]] + strip_ws_spec(s.drop_first())
    }
}

proof fn lemma_strip_push(s: Seq<char>, c: char)
    ensures
        strip_ws_spec(s.push(c)) == if is_json_ws(c) {
            strip_ws_spec(s)
        } else {
            strip_ws_spec(s).push(c)
        },
    decreases s.len(),
{
    if s.len() == 0 {
        assert(s.push(c)[0] == c);
        assert(s.push(c).drop_first() =~= Seq::<char>::empty());
        assert(strip_ws_spec(Seq::<char>::empty()) == Seq::<char>::empty());
        assert(strip_ws_spec(s) == Seq::<char>::empty());
        if !is_json_ws(c) {
            assert(seq![c] + Seq::<char>::empty() =~= strip_ws_spec(s).push(c));
        }
    } else {
        assert(s.push(c)[0] == s[0]);
        assert(s.push(c).drop_first() =~= s.drop_first().push(c));
        lemma_strip_push(s.drop_first(), c);
        if !is_json_ws(s[0]) && !is_json_ws(c) {
            assert(seq![s[0]] + strip_ws_spec(s.drop_first()).push(c) =~= (seq![s[0]]
                + strip_ws_spec(s.drop_first())).push(c));
        }
    }
}

/// Stripping leaves a whitespace-free text as it stands.
proof fn lemma_strip_ws_id(s: Seq<char>)
    requires
        forall|i: int| 0 <= i < s.len() ==> !is_json_ws(#[trigger] s[i]),
    ensures
        strip_ws_spec(s) == s,
    decreases s.len(),
{
    if s.len() > 0 {
        lemma_strip_ws_id(s.drop_first());
        assert(seq![s[0]] + s.drop_first() =~= s);
    }
}

/// Whether whitespace stands somewhere between two digits. Stripping such a
/// text would merge two number tokens into one, so it is rejected instead:
/// no conforming reply splits a number, since a comma always stands between
/// two positions.
pub open spec fn has_split_digits(s: Seq<char>) -> bool {
    exists|i: int, j: int|
        0 <= i && i + 1 < j < s.len() && is_digit(s[i]) && is_digit(s[j]) && (forall|k: int|
            i < k < j ==> is_json_ws(#[trigger] s[k]))
}

fn find_split_digits(s: &str) -> (r: bool)
    ensures
        r == has_split_digits(s@),
{
    let n = s.unicode_len();
    // Whether the last character that is no whitespace was a digit, and
    // whether whitespace has stood since it.
    let mut pend = false;
    let mut gap = false;
    let ghost mut pi: int = 0;
    let mut i: usize = 0;
    while i < n
        invariant
            n == s@.len(),
            i <= n,
            pend ==> 0 <= pi < i && is_digit(s@[pi]) && (forall|k: int|
                pi < k < i ==> is_json_ws(#[trigger] s@[k])),
            pend ==> (gap <==> pi + 1 < i),
            !pend ==> forall|p: int|
                0 <= p < i && is_digit(#[trigger] s@[p]) ==> exists|k: int|
                    p < k < i && !is_json_ws(s@[k]),
            forall|i0: int, j0: int|
                !(0 <= i0 && i0 + 1 < j0 < i && is_digit(s@[i0]) && is_digit(s@[j0]) && (forall|
                    k: int,
                |
                    i0 < k < j0 ==> is_json_ws(#[trigger] s@[k]))),
        decreases n - i,
    {
        let c = s.get_char(i);
        if '0' <= c && c <= '9' {
            if pend && gap {
                proof {
                    assert(0 <= pi && pi + 1 < i < s@.len() && is_digit(s@[pi]) && is_digit(
                        s@[i as int],
                    ) && (forall|k: int| pi < k < i ==> is_json_ws(#[trigger] s@[k])));
                }
                return true;
            }
            proof {
                // No earlier digit reaches the one at `i` through whitespace
                // alone.
                assert forall|i0: int|
                    0 <= i0 && i0 + 1 < i implies !(is_digit(s@[i0]) && (forall|k: int|
                    i0 < k < i ==> is_json_ws(#[trigger] s@[k]))) by {
                    if pend {
                        if i0 < pi {
                            assert(!is_json_ws(s@[pi]));
                        }
                    } else {
                        if is_digit(s@[i0]) {
                            let k = choose|k: int| i0 < k < i && !is_json_ws(s@[k]);
                            assert(!is_json_ws(s@[k]));
                        }
                    }
                }
                pi = i as int;
            }
            pend = true;
            gap = false;
        } else if c == ' ' || c == '\t' || c == '\n' || c == '\r' {
            if pend {
                gap = true;
            }
        } else {
            proof {
                // This character is no whitespace, so it parts every earlier
                // digit from whatever follows.
                assert forall|p: int|
                    0 <= p < i + 1 && is_digit(#[trigger] s@[p]) implies exists|k: int|
                    p < k < i + 1 && !is_json_ws(s@[k]) by {
                    if p < i {
                        assert(p < i < i + 1 && !is_json_ws(s@[i as int]));
                    }
                }
            }
            pend = false;
            gap = false;
        }
        i = i + 1;
    }
    proof {
        assert(!has_split_digits(s@));
    }
    false
}

/// Removes insignificant whitespace, so that the strict grammar below can
/// judge any serialization of a schema-conforming reply.
fn strip_ws(s: &str) -> (r: String)
    ensures
        r@ == strip_ws_spec(s@),
{
    let n = s.unicode_len();
    let mut res = String::new();
    let mut i: usize = 0;
    while i < n
        invariant
            n == s@.len(),
            i <= n,
            res@ == strip_ws_spec(s@.take(i as int)),
        decreases n - i,
    {
        let c = s.get_char(i);
        if !(c == ' ' || c == '\t' || c == '\n' || c == '\r') {
            let piece = s.substring_char(i, i + 1);
            proof {
                assert(piece@ =~= seq![s@[i as int]]);
            }
            res.append(piece);
            proof {
                assert(res@ =~= strip_ws_spec(s@.take(i as int)).push(s@[i as int]));
            }
        }
        proof {
            assert(s@.take(i + 1) =~= s@.take(i as int).push(s@[i as int]));
            lemma_strip_push(s@.take(i as int), s@[i as int]);
        }
        i = i + 1;
    }
    proof {
        assert(s@.take(n as int) =~= s@);
    }
    res
}

/// The positions rendered in decimal, one comma between two of them.
pub open spec fn join_decimals(vals: Seq<u64>) -> Seq<char>
    decreases vals.len(),
{
    if vals.len() == 0 {
        Seq::<char>::empty()
    } else if vals.len() == 1 {
        spec_decimal(vals[0] as nat)
    } else {
        spec_decimal(vals[0] as nat) + ","@ + join_decimals(vals.drop_first())
    }
}

/// The canonical reply text that carries exactly the given positions.
pub open spec fn reply_text(vals: Seq<u64>) -> Seq<char> {
    reply_prefix() + join_decimals(vals) + "]}"@
}

proof fn lemma_join_no_ws(vals: Seq<u64>)
    ensures
        forall|k: int|
            0 <= k < join_decimals(vals).len() ==> !is_json_ws(#[trigger] join_decimals(vals)[k]),
    decreases vals.len(),
{
    reveal_strlit(",");
    if vals.len() >= 1 {
        lemma_decimal_digits(vals[0] as nat);
        if vals.len() > 1 {
            lemma_join_no_ws(vals.drop_first());
            let d0 = spec_decimal(vals[0] as nat);
            let rest = join_decimals(vals.drop_first());
            assert forall|k: int| 0 <= k < join_decimals(vals).len() implies !is_json_ws(
                #[trigger] join_decimals(vals)[k],
            ) by {
                if k < d0.len() {
                    assert(join_decimals(vals)[k] == d0[k]);
                    assert(is_digit(d0[k]));
                } else if k == d0.len() {
                    assert(join_decimals(vals)[k] == ","@[0]);
                } else {
                    assert(join_decimals(vals)[k] == rest[k - d0.len() - 1]);
                }
            }
        }
    }
}

/// The canonical reply never holds whitespace, so stripping leaves it whole.
pub proof fn lemma_reply_text_no_ws(vals: Seq<u64>)
    ensures
        strip_ws_spec(reply_text(vals)) == reply_text(vals),
{
    reveal_strlit("{\"result\":[");
    reveal_strlit("]}");
    lemma_join_no_ws(vals);
    let s = reply_text(vals);
    assert forall|k: int| 0 <= k < s.len() implies !is_json_ws(#[trigger] s[k]) by {
        if k < 11 {
            assert(s[k] == reply_prefix()[k]);
        } else if k < 11 + join_decimals(vals).len() {
            assert(s[k] == join_decimals(vals)[k - 11]);
        } else {
            assert(s[k] == "]}"@[k - 11 - join_decimals(vals).len()]);
        }
    }
    lemma_strip_ws_id(s);
}

/// Reading a run of digits advances the parse to the first character after
/// the run, with the digits' value folded into the value read so far.
proof fn lemma_pa_num(s: Seq<char>, i: int, cur: u64, rest: Seq<char>)
    requires
        0 <= i,
        i + rest.len() <= s.len(),
        s.subrange(i, i + rest.len() as int) == rest,
        forall|j: int| 0 <= j < rest.len() ==> is_digit(#[trigger] rest[j]),
        combined_int(cur as int, rest) <= u64::MAX,
    ensures
        pa_innum(s, i, cur) == pa_innum(
            s,
            i + rest.len() as int,
            combined_int(cur as int, rest) as u64,
        ),
    decreases rest.len(),
{
    if rest.len() > 0 {
        assert(s[i] == rest[0]);
        let d = digit_val(rest[0]);
        lemma_combined_monotone(cur * 10 + d, rest.drop_first());
        assert(s.subrange(i + 1, i + 1 + rest.drop_first().len() as int) =~= rest.drop_first());
        lemma_pa_num(s, i + 1, (cur * 10 + d) as u64, rest.drop_first());
    }
}

/// Parsing from the first digit of a rendered position list yields exactly
/// those positions when the close follows the rendered text.
proof fn lemma_pa_join(s: Seq<char>, i: int, vals: Seq<u64>)
    requires
        vals.len() >= 1,
        0 <= i,
        i + join_decimals(vals).len() + 2 == s.len(),
        s.subrange(i, i + join_decimals(vals).len() as int) == join_decimals(vals),
        close_ok(s, i + join_decimals(vals).len() as int),
    ensures
        pa_list(s, i) == Some(vals),
    decreases vals.len(),
{
    reveal_strlit(",");
    reveal_strlit("0123456789abcdefghijklmnopqrstuvwxyz");
    let d0 = spec_decimal(vals[0] as nat);
    let jl = join_decimals(vals).len() as int;
    lemma_decimal_digits(vals[0] as nat);
    lemma_decimal_value(vals[0] as nat);
    assert(s[i] == join_decimals(vals)[0]);
    assert(join_decimals(vals)[0] == d0[0]);
    assert(is_digit(s[i]));
    if vals[0] == 0 {
        // A zero renders as the lone zero digit and parses through the
        // lone-zero state.
        assert(d0 =~= seq![digit_char(0)]);
        assert(digit_char(0) == '0');
        assert(s[i] == '0');
        assert(pa_list(s, i) == pa_zero(s, i + 1));
    } else {
        lemma_decimal_no_leading_zero(vals[0] as nat);
        assert(s[i] != '0');
        // The whole first rendering reads back as the first position's
        // value.
        assert(combined_int(0, d0) == combined_int(digit_val(d0[0]), d0.drop_first()));
        assert(s.subrange(i + 1, i + d0.len() as int) =~= d0.drop_first()) by {
            assert forall|k: int| 0 <= k < d0.len() - 1 implies s.subrange(
                i + 1,
                i + d0.len() as int,
            )[k] == d0.drop_first()[k] by {
                assert(s[i + 1 + k] == join_decimals(vals)[1 + k]);
                assert(join_decimals(vals)[1 + k] == d0[1 + k]);
            }
        }
        lemma_pa_num(s, i + 1, digit_val(d0[0]) as u64, d0.drop_first());
        assert(pa_list(s, i) == pa_innum(s, i + d0.len() as int, vals[0]));
    }
    if vals.len() == 1 {
        assert(jl == d0.len());
        assert(close_ok(s, i + d0.len() as int));
        assert(!is_digit(']'));
        if vals[0] == 0 {
            assert(pa_zero(s, i + 1) == Some(seq![0u64]));
        } else {
            assert(pa_innum(s, i + d0.len() as int, vals[0]) == Some(seq![vals[0]]));
        }
        assert(seq![vals[0]] =~= vals);
    } else {
        let tail = vals.drop_first();
        assert(join_decimals(vals) == d0 + ","@ + join_decimals(tail));
        assert(s[i + d0.len() as int] == join_decimals(vals)[d0.len() as int]);
        assert(join_decimals(vals)[d0.len() as int] == ","@[0]);
        assert(","@[0] == ',');
        assert(!is_digit(','));
        let i2 = i + d0.len() + 1;
        assert(s.subrange(i2, i2 + join_decimals(tail).len() as int) =~= join_decimals(tail)) by {
            assert forall|k: int| 0 <= k < join_decimals(tail).len() implies s.subrange(
                i2,
                i2 + join_decimals(tail).len() as int,
            )[k] == join_decimals(tail)[k] by {
                assert(s[i2 + k] == join_decimals(vals)[d0.len() + 1 + k]);
                assert(join_decimals(vals)[d0.len() + 1 + k] == join_decimals(tail)[k]);
            }
        }
        lemma_pa_join(s, i2, tail);
        if vals[0] == 0 {
            assert(pa_zero(s, i + 1) == Some(seq![0u64] + tail));
        } else {
            assert(pa_innum(s, i + d0.len() as int, vals[0]) == Some(seq![vals[0]] + tail));
        }
        assert(seq![vals[0]] + tail =~= vals);
    }
}

/// Round-trip law: every canonical reply parses back to exactly the
/// positions it renders.
pub proof fn lemma_reply_round_trip(vals: Seq<u64>)
    ensures
        parse_reply_chars(reply_text(vals)) == Some(vals),
{
    reveal_strlit("{\"result\":[");
    reveal_strlit("]}");
    let s = reply_text(vals);
    let jl = join_decimals(vals).len() as int;
    assert(s.subrange(0, 11) =~= reply_prefix());
    if vals.len() == 0 {
        assert(s[11] == ']' && s[12] == '}');
        assert(close_ok(s, 11));
    } else {
        lemma_decimal_digits(vals[0] as nat);
        assert(s[11] == join_decimals(vals)[0]);
        assert(is_digit(s[11]));
        assert(!close_ok(s, 11));
        assert(s.subrange(11, 11 + jl) =~= join_decimals(vals));
        assert(s[11 + jl] == ']' && s[11 + jl + 1] == '}');
        assert(close_ok(s, 11 + jl));
        lemma_pa_join(s, 11, vals);
    }
}

/// The number of consecutive digit characters standing at `i`.
pub open spec fn digit_run(s: Seq<char>, i: int) -> int
    decreases s.len() - i,
{
    if i < 0 || i >= s.len() || !is_digit(s[i]) {
        0
    } else {
        1 + digit_run(s, i + 1)
    }
}

/// A suffix of the text splits at any interior point.
proof fn lemma_suffix_prepend(s: Seq<char>, a: int, b: int, x: Seq<char>)
    requires
        0 <= a <= b <= s.len(),
        s.subrange(b, s.len() as int) == x,
    ensures
        s.subrange(a, s.len() as int) == s.subrange(a, b) + x,
{
    assert(s.subrange(a, s.len() as int) =~= s.subrange(a, b) + s.subrange(b, s.len() as int));
}

proof fn lemma_digit_run_digits(s: Seq<char>, i: int)
    requires
        0 <= i <= s.len(),
    ensures
        digit_run(s, i) >= 0,
        i + digit_run(s, i) <= s.len(),
        forall|k: int| i <= k < i + digit_run(s, i) ==> is_digit(#[trigger] s[k]),
    decreases s.len() - i,
{
    if i < s.len() && is_digit(s[i]) {
        lemma_digit_run_digits(s, i + 1);
    }
}

/// A successful parse from inside a position reads the rest of that
/// position's digits, then the separator structure the values dictate.
proof fn lemma_pa_innum_sound(s: Seq<char>, i: int, cur: u64, vals: Seq<u64>)
    requires
        0 <= i <= s.len(),
        pa_innum(s, i, cur) == Some(vals),
    ensures
        vals.len() >= 1,
        combined_int(cur as int, s.subrange(i, i + digit_run(s, i))) == vals[0],
        vals.len() == 1 ==> s.subrange(i, s.len() as int) == s.subrange(i, i + digit_run(s, i))
            + "]}"@,
        vals.len() > 1 ==> s.subrange(i, s.len() as int) == s.subrange(i, i + digit_run(s, i))
            + ","@ + join_decimals(vals.drop_first()) + "]}"@,
    decreases s.len() - i, 0int,
{
    reveal_strlit("]}");
    reveal_strlit(",");
    lemma_digit_run_digits(s, i);
    if is_digit(s[i]) {
        let cur2 = (cur * 10 + digit_val(s[i])) as u64;
        lemma_pa_innum_sound(s, i + 1, cur2, vals);
        lemma_digit_run_digits(s, i + 1);
        let run = digit_run(s, i);
        assert(run == 1 + digit_run(s, i + 1));
        let t = s.subrange(i, i + run);
        let t2 = s.subrange(i + 1, i + 1 + digit_run(s, i + 1));
        assert(t =~= seq![s[i]] + t2);
        assert(t.drop_first() =~= t2);
        assert(combined_int(cur as int, t) == combined_int(cur2 as int, t2));
        if vals.len() == 1 {
            lemma_suffix_prepend(s, i, i + 1, t2 + "]}"@);
            assert(s.subrange(i, i + 1) =~= seq![s[i]]);
            assert(seq![s[i]] + (t2 + "]}"@) =~= t + "]}"@);
        } else {
            lemma_suffix_prepend(s, i, i + 1, t2 + ","@ + join_decimals(vals.drop_first()) + "]}"@);
            assert(s.subrange(i, i + 1) =~= seq![s[i]]);
            assert(seq![s[i]] + (t2 + ","@ + join_decimals(vals.drop_first()) + "]}"@) =~= t + ","@
                + join_decimals(vals.drop_first()) + "]}"@);
        }
    } else {
        assert(digit_run(s, i) == 0);
        assert(s.subrange(i, i) =~= Seq::<char>::empty());
        assert(combined_int(cur as int, Seq::<char>::empty()) == cur);
        if s[i] == ',' {
            let rest = choose|rest: Seq<u64>| pa_list(s, i + 1) == Some(rest);
            assert(vals == seq![cur] + rest);
            lemma_pa_list_sound(s, i + 1, rest);
            assert(vals.drop_first() =~= rest);
            lemma_suffix_prepend(s, i, i + 1, join_decimals(rest) + "]}"@);
            assert(s.subrange(i, i + 1) =~= ","@);
            assert(","@ + (join_decimals(rest) + "]}"@) =~= s.subrange(i, i) + ","@ + join_decimals(
                rest,
            ) + "]}"@);
        } else {
            assert(close_ok(s, i));
            assert(vals =~= seq![cur]);
            assert(s.subrange(i, s.len() as int) =~= "]}"@);
            assert(s.subrange(i, s.len() as int) =~= s.subrange(i, i) + "]}"@);
        }
    }
}

/// A successful parse from the start of a position reads exactly the
/// canonical rendering of the values, then the close.
proof fn lemma_pa_list_sound(s: Seq<char>, i: int, vals: Seq<u64>)
    requires
        0 <= i <= s.len(),
        pa_list(s, i) == Some(vals),
    ensures
        vals.len() >= 1,
        s.subrange(i, s.len() as int) == join_decimals(vals) + "]}"@,
    decreases s.len() - i, 1int,
{
    reveal_strlit("]}");
    reveal_strlit(",");
    reveal_strlit("0123456789abcdefghijklmnopqrstuvwxyz");
    if s[i] == '0' {
        // The lone-zero state: the first value is zero, rendered as `0`.
        assert(spec_decimal(0) =~= seq![digit_char(0)]);
        assert(digit_char(0) == '0');
        if i + 1 < s.len() && s[i + 1] == ',' {
            let rest = choose|rest: Seq<u64>| pa_list(s, i + 2) == Some(rest);
            assert(vals == seq![0u64] + rest);
            lemma_pa_list_sound(s, i + 2, rest);
            assert(vals.drop_first() =~= rest);
            assert(vals[0] == 0);
            assert(join_decimals(vals) == spec_decimal(0) + ","@ + join_decimals(rest));
            lemma_suffix_prepend(s, i, i + 2, join_decimals(rest) + "]}"@);
            assert(s.subrange(i, i + 2) =~= spec_decimal(0) + ","@);
            assert(s.subrange(i, i + 2) + (join_decimals(rest) + "]}"@) =~= join_decimals(vals)
                + "]}"@);
        } else {
            assert(close_ok(s, i + 1));
            assert(vals =~= seq![0u64]);
            assert(join_decimals(vals) == spec_decimal(0));
            assert(s.subrange(i, s.len() as int) =~= join_decimals(vals) + "]}"@);
        }
    } else {
        let dv0 = digit_val(s[i]) as u64;
        lemma_pa_innum_sound(s, i + 1, dv0, vals);
        lemma_digit_run_digits(s, i + 1);
        let run1 = digit_run(s, i + 1);
        let t = s.subrange(i + 1, i + 1 + run1);
        let u = s.subrange(i, i + 1 + run1);
        assert(u =~= seq![s[i]] + t);
        assert(u.drop_first() =~= t);
        assert(combined_int(0, u) == combined_int(dv0 as int, t));
        assert(combined_int(0, u) == vals[0]);
        assert(forall|k: int| 0 <= k < u.len() ==> is_digit(#[trigger] u[k]));
        assert(u[0] != '0');
        lemma_canonical_decimal(u);
        assert(spec_decimal(vals[0] as nat) == u);
        if vals.len() == 1 {
            assert(join_decimals(vals) == spec_decimal(vals[0] as nat));
            lemma_suffix_prepend(s, i, i + 1, t + "]}"@);
            assert(s.subrange(i, i + 1) =~= seq![s[i]]);
            assert(seq![s[i]] + (t + "]}"@) =~= u + "]}"@);
        } else {
            assert(join_decimals(vals) == spec_decimal(vals[0] as nat) + ","@ + join_decimals(
                vals.drop_first(),
            ));
            lemma_suffix_prepend(s, i, i + 1, t + ","@ + join_decimals(vals.drop_first()) + "]}"@);
            assert(s.subrange(i, i + 1) =~= seq![s[i]]);
            assert(seq![s[i]] + (t + ","@ + join_decimals(vals.drop_first()) + "]}"@) =~= u + ","@
                + join_decimals(vals.drop_first()) + "]}"@);
            assert(u + ","@ + join_decimals(vals.drop_first()) + "]}"@ =~= join_decimals(vals)
                + "]}"@);
        }
    }
}

/// Soundness law: a reply parses to some positions only if it is exactly the
/// canonical rendering of those positions.
pub proof fn lemma_reply_parse_sound(s: Seq<char>, vals: Seq<u64>)
    requires
        parse_reply_chars(s) == Some(vals),
    ensures
        s == reply_text(vals),
{
    reveal_strlit("{\"result\":[");
    reveal_strlit("]}");
    if close_ok(s, 11) {
        assert(vals =~= Seq::<u64>::empty());
        assert(s.subrange(11, s.len() as int) =~= "]}"@);
        lemma_suffix_prepend(s, 0, 11, "]}"@);
        assert(s.subrange(0, s.len() as int) =~= s);
        assert(s.subrange(0, 11) + "]}"@ =~= reply_prefix() + join_decimals(vals) + "]}"@);
    } else {
        lemma_pa_list_sound(s, 11, vals);
        lemma_suffix_prepend(s, 0, 11, join_decimals(vals) + "]}"@);
        assert(s.subrange(0, s.len() as int) =~= s);
        assert(s.subrange(0, 11) + (join_decimals(vals) + "]}"@) =~= reply_prefix()
            + join_decimals(vals) + "]}"@);
    }
}

fn exec_pa_list(s: &str, i: usize, n: usize) -> (r: Option<Vec<u64>>)
    requires
        n == s@.len(),
    ensures
        r matches Some(v) ==> pa_list(s@, i as int) == Some(v@),
        r is None ==> pa_list(s@, i as int) is None,
    decreases n - i, 1int,
{
    if i >= n {
        return None;
    }
    let c = s.get_char(i);
    if c == '0' {
        exec_pa_zero(s, i + 1, n)
    } else if '0' <= c && c <= '9' {
        let d = (c as u32 - 48) as u64;
        exec_pa_innum(s, i + 1, n, d)
    } else {
        None
    }
}

fn exec_pa_zero(s: &str, i: usize, n: usize) -> (r: Option<Vec<u64>>)
    requires
        n == s@.len(),
    ensures
        r matches Some(v) ==> pa_zero(s@, i as int) == Some(v@),
        r is None ==> pa_zero(s@, i as int) is None,
    decreases n - i, 0int,
{
    if i >= n {
        return None;
    }
    let c = s.get_char(i);
    if '0' <= c && c <= '9' {
        None
    } else if c == ',' {
        match exec_pa_list(s, i + 1, n) {
            Some(mut rest) => {
                let ghost before = rest@;
                rest.insert(0, 0);
                proof {
                    assert(rest@ =~= seq![0u64] + before);
                }
                Some(rest)
            },
            None => None,
        }
    } else if c == ']' && n >= 2 && i == n - 2 {
        if s.get_char(i + 1) == '}' {
            Some(vec![0])
        } else {
            None
        }
    } else {
        None
    }
}

fn exec_pa_innum(s: &str, i: usize, n: usize, cur: u64) -> (r: Option<Vec<u64>>)
    requires
        n == s@.len(),
    ensures
        r matches Some(v) ==> pa_innum(s@, i as int, cur) == Some(v@),
        r is None ==> pa_innum(s@, i as int, cur) is None,
    decreases n - i, 0int,
{
    if i >= n {
        return None;
    }
    let c = s.get_char(i);
    if '0' <= c && c <= '9' {
        let d = (c as u32 - 48) as u64;
        match cur.checked_mul(10) {
            Some(m) => match m.checked_add(d) {
                Some(v) => exec_pa_innum(s, i + 1, n, v),
                None => None,
            },
            None => None,
        }
    } else if c == ',' {
        match exec_pa_list(s, i + 1, n) {
            Some(mut rest) => {
                let ghost before = rest@;
                rest.insert(0, cur);
                proof {
                    assert(rest@ =~= seq![cur] + before);
                }
                Some(rest)
            },
            None => None,
        }
    } else if c == ']' && n >= 2 && i == n - 2 {
        if s.get_char(i + 1) == '}' {
            Some(vec![cur])
        } else {
            None
        }
    } else {
        None
    }
}

/// Parses a reply: whitespace is insignificant between the reply's tokens,
/// so it is removed first — unless it stands inside a number, which no
/// conforming reply allows; the positions are returned exactly when what
/// remains is their canonical rendering. In particular every conforming
/// serialization of the reply object yields its positions.
pub fn parse_reply(s: &str) -> (r: Option<Vec<u64>>)
    ensures
        r matches Some(v) ==> parse_reply_chars(strip_ws_spec(s@)) == Some(v@) && strip_ws_spec(s@)
            == reply_text(v@) && !has_split_digits(s@),
        r is None ==> has_split_digits(s@) || (parse_reply_chars(strip_ws_spec(s@)) is None && (
        forall|vals: Seq<u64>| strip_ws_spec(s@) != reply_text(vals))),
{
    if find_split_digits(s) {
        return None;
    }
    let stripped = strip_ws(s);
    let r = scan_reply(stripped.as_str());
    proof {
        match r {
            Some(ref v) => {
                lemma_reply_parse_sound(stripped@, v@);
            },
            None => {
                assert forall|vals: Seq<u64>| strip_ws_spec(s@) != reply_text(vals) by {
                    lemma_reply_round_trip(vals);
                }
            },
        }
    }
    r
}

fn scan_reply(s: &str) -> (r: Option<Vec<u64>>)
    ensures
        r matches Some(v) ==> parse_reply_chars(s@) == Some(v@),
        r is None ==> parse_reply_chars(s@) is None,
{
    let pat = "{\"result\":[";
    proof {
        reveal_strlit("{\"result\":[");
    }
    let n = s.unicode_len();
    if n < 13 {
        return None;
    }
    let mut j: usize = 0;
    while j < 11
        invariant
            j <= 11,
            n == s@.len(),
            13 <= n,
            pat@ == reply_prefix(),
            pat@.len() == 11,
            forall|k: int| 0 <= k < j ==> s@[k] == reply_prefix()[k],
        decreases 11 - j,
    {
        if s.get_char(j) != pat.get_char(j) {
            proof {
                assert(s@.subrange(0, 11) != reply_prefix()) by {
                    assert(s@.subrange(0, 11)[j as int] != reply_prefix()[j as int]);
                }
            }
            return None;
        }
        j = j + 1;
    }
    proof {
        assert(s@.subrange(0, 11) =~= reply_prefix());
    }
    let c11 = s.get_char(11);
    if c11 == ']' {
        if n == 13 && s.get_char(12) == '}' {
            return Some(Vec::new());
        }
        proof {
            assert(!is_digit(s@[11]));
            assert(!close_ok(s@, 11));
        }
        return None;
    }
    proof {
        assert(!close_ok(s@, 11));
    }
    exec_pa_list(s, 11, n)
}

} // verus!
