//! The delimiter-framed wire format: one delimiter line before the `find`
//! line and before every record line, each line ended by a newline.

use vstd::prelude::*;

use crate::text::{digit_char, push_digit, spec_decimal, u64_to_decimal};

verus! {

/// The number of characters in a freshly minted delimiter.
pub const DELIMITER_LEN: usize = 12;

/// Whether `c` is one of the 36 delimiter symbols.
pub open spec fn is_base36_char(c: char) -> bool {
    exists|d: int| 0 <= d < 36 && c == digit_char(d)
}

/// Whether `s` is a well-formed minted delimiter.
pub open spec fn is_delimiter(s: Seq<char>) -> bool {
    &&& s.len() == DELIMITER_LEN
    &&& forall|i: int| 0 <= i < s.len() ==> is_base36_char(#[trigger] s[i])
}

/// One record line: the zero-based position, a comma, the encoded value.
pub open spec fn record_line(position: nat, enc: Seq<char>) -> Seq<char> {
    spec_decimal(position) + ","@ + enc
}

/// The record part of a frame: for each encoded value, a delimiter line and a
/// record line, positions counted from `start`.
pub open spec fn frame_records(d: Seq<char>, encs: Seq<Seq<char>>, start: nat) -> Seq<char>
    decreases encs.len(),
{
    if encs.len() == 0 {
        Seq::<char>::empty()
    } else {
        d + "\n"@ + record_line(start, encs[0]) + "\n"@ + frame_records(
            d,
            encs.drop_first(),
            start + 1,
        )
    }
}

/// A whole frame: a delimiter line, the `find` line naming the encoded
/// target, then one delimiter line and one record line per element, in
/// traversal order.
pub open spec fn frame_text(d: Seq<char>, target_enc: Seq<char>, encs: Seq<Seq<char>>) -> Seq<
    char,
> {
    d + "\n"@ + "find "@ + target_enc + "\n"@ + frame_records(d, encs, 0)
}

/// Appending one more encoded value extends the record part by exactly one
/// delimiter line and one record line.
pub proof fn lemma_frame_records_push(d: Seq<char>, encs: Seq<Seq<char>>, e: Seq<char>, start: nat)
    ensures
        frame_records(d, encs.push(e), start) == frame_records(d, encs, start) + d + "\n"@
            + record_line(start + encs.len(), e) + "\n"@,
    decreases encs.len(),
{
    if encs.len() == 0 {
        assert(encs.push(e)[0] == e);
        assert(encs.push(e).drop_first() =~= Seq::<Seq<char>>::empty());
        assert(frame_records(d, Seq::<Seq<char>>::empty(), start + 1) =~= Seq::<char>::empty());
        assert(frame_records(d, encs, start) =~= Seq::<char>::empty());
        assert(frame_records(d, encs.push(e), start) =~= frame_records(d, encs, start) + d + "\n"@
            + record_line(start + encs.len(), e) + "\n"@);
    } else {
        assert(encs.push(e)[0] == encs[0]);
        assert(encs.push(e).drop_first() =~= encs.drop_first().push(e));
        lemma_frame_records_push(d, encs.drop_first(), e, start + 1);
        assert(frame_records(d, encs.push(e), start) =~= frame_records(d, encs, start) + d + "\n"@
            + record_line(start + encs.len(), e) + "\n"@);
    }
}

/// The lines of the record part of a frame: a delimiter line, then a record
/// line, for each encoded value in order.
pub open spec fn record_lines(d: Seq<char>, encs: Seq<Seq<char>>, start: nat) -> Seq<Seq<char>>
    decreases encs.len(),
{
    if encs.len() == 0 {
        Seq::<Seq<char>>::empty()
    } else {
        seq![d, record_line(start, encs[0])] + record_lines(d, encs.drop_first(), start + 1)
    }
}

/// The lines of a whole frame, in order: the delimiter, the `find` line,
/// then the record part's lines.
pub open spec fn frame_lines(d: Seq<char>, target_enc: Seq<char>, encs: Seq<Seq<char>>) -> Seq<
    Seq<char>,
> {
    seq![d, "find "@ + target_enc] + record_lines(d, encs, 0)
}

/// Text from lines: each line followed by one newline.
pub open spec fn join_lines(lines: Seq<Seq<char>>) -> Seq<char>
    decreases lines.len(),
{
    if lines.len() == 0 {
        Seq::<char>::empty()
    } else {
        lines[0] + "\n"@ + join_lines(lines.drop_first())
    }
}

proof fn lemma_join_two(x: Seq<char>, y: Seq<char>)
    ensures
        join_lines(seq![x, y]) == x + "\n"@ + y + "\n"@,
{
    let l2 = seq![y];
    assert(seq![x, y].drop_first() =~= l2);
    assert(l2.drop_first() =~= Seq::<Seq<char>>::empty());
    assert(l2[0] == y);
    assert(join_lines(Seq::<Seq<char>>::empty()) == Seq::<char>::empty());
    assert(join_lines(l2) == y + "\n"@ + join_lines(Seq::<Seq<char>>::empty()));
    assert(join_lines(seq![x, y]) =~= x + "\n"@ + y + "\n"@);
}

proof fn lemma_join_lines_concat(a: Seq<Seq<char>>, b: Seq<Seq<char>>)
    ensures
        join_lines(a + b) == join_lines(a) + join_lines(b),
    decreases a.len(),
{
    if a.len() == 0 {
        assert(a + b =~= b);
        assert(join_lines(a) + join_lines(b) =~= join_lines(b));
    } else {
        assert((a + b).drop_first() =~= a.drop_first() + b);
        lemma_join_lines_concat(a.drop_first(), b);
        assert(join_lines(a + b) =~= join_lines(a) + join_lines(b));
    }
}

/// The record part of the frame text is its record lines joined.
proof fn lemma_frame_records_joined(d: Seq<char>, encs: Seq<Seq<char>>, start: nat)
    ensures
        frame_records(d, encs, start) == join_lines(record_lines(d, encs, start)),
    decreases encs.len(),
{
    if encs.len() > 0 {
        lemma_frame_records_joined(d, encs.drop_first(), start + 1);
        lemma_join_lines_concat(
            seq![d, record_line(start, encs[0])],
            record_lines(d, encs.drop_first(), start + 1),
        );
        lemma_join_two(d, record_line(start, encs[0]));
        assert(frame_records(d, encs, start) =~= join_lines(record_lines(d, encs, start)));
    }
}

/// A frame's text is exactly its lines joined by newlines.
pub proof fn lemma_frame_text_lines(d: Seq<char>, target_enc: Seq<char>, encs: Seq<Seq<char>>)
    ensures
        frame_text(d, target_enc, encs) == join_lines(frame_lines(d, target_enc, encs)),
{
    lemma_frame_records_joined(d, encs, 0);
    lemma_join_lines_concat(seq![d, "find "@ + target_enc], record_lines(d, encs, 0));
    lemma_join_two(d, "find "@ + target_enc);
    assert(frame_text(d, target_enc, encs) =~= join_lines(frame_lines(d, target_enc, encs)));
}

proof fn lemma_record_lines_index(d: Seq<char>, encs: Seq<Seq<char>>, start: nat, i: int)
    requires
        0 <= i < encs.len(),
    ensures
        record_lines(d, encs, start).len() == 2 * encs.len(),
        record_lines(d, encs, start)[2 * i] == d,
        record_lines(d, encs, start)[2 * i + 1] == record_line((start + i) as nat, encs[i]),
    decreases encs.len(),
{
    if i == 0 {
        if encs.len() > 1 {
            lemma_record_lines_index(d, encs.drop_first(), start + 1, 0);
        } else {
            assert(record_lines(d, encs.drop_first(), start + 1) =~= Seq::<Seq<char>>::empty());
        }
    } else {
        lemma_record_lines_index(d, encs.drop_first(), start + 1, i - 1);
    }
}

/// Self-consistency law: within one frame, the delimiter of the opening line
/// stands again before every record, and nowhere else between records.
pub proof fn lemma_frame_self_consistent(d: Seq<char>, target_enc: Seq<char>, encs: Seq<Seq<char>>)
    ensures
        frame_lines(d, target_enc, encs).len() == 2 + 2 * encs.len(),
        frame_lines(d, target_enc, encs)[0] == d,
        frame_lines(d, target_enc, encs)[1] == "find "@ + target_enc,
        forall|i: int|
            0 <= i < encs.len() ==> #[trigger] frame_lines(d, target_enc, encs)[2 + 2 * i] == d,
        forall|i: int|
            0 <= i < encs.len() ==> #[trigger] frame_lines(d, target_enc, encs)[2 + 2 * i + 1]
                == record_line(i as nat, encs[i]),
{
    if encs.len() == 0 {
        assert(record_lines(d, encs, 0) =~= Seq::<Seq<char>>::empty());
    } else {
        assert forall|i: int| 0 <= i < encs.len() implies #[trigger] frame_lines(
            d,
            target_enc,
            encs,
        )[2 + 2 * i] == d by {
            lemma_record_lines_index(d, encs, 0, i);
        }
        assert forall|i: int| 0 <= i < encs.len() implies #[trigger] frame_lines(
            d,
            target_enc,
            encs,
        )[2 + 2 * i + 1] == record_line(i as nat, encs[i]) by {
            lemma_record_lines_index(d, encs, 0, i);
        }
        lemma_record_lines_index(d, encs, 0, 0);
    }
}

/// Relies on rand::random_range over `0..36`: the result lies in the
/// requested range; nothing else is assumed of it.
#[verifier::external_body]
fn random_base36_symbol() -> (r: u8)
    ensures
        r < 36,
{
    rand::random_range(0u8..36u8)
}

/// Mints a fresh random token of `len` base-36 characters.
pub fn random_base36(len: usize) -> (r: String)
    ensures
        r@.len() == len,
        forall|i: int| 0 <= i < r@.len() ==> is_base36_char(#[trigger] r@[i]),
{
    let mut res = String::new();
    let mut j: usize = 0;
    while j < len
        invariant
            j <= len,
            res@.len() == j,
            forall|i: int| 0 <= i < res@.len() ==> is_base36_char(#[trigger] res@[i]),
        decreases len - j,
    {
        let c = random_base36_symbol();
        push_digit(&mut res, c);
        j = j + 1;
    }
    res
}

/// Builds the frame for already-encoded values around the given delimiter.
pub fn build_frame(delimiter: &String, target_enc: &String, encs: &Vec<String>) -> (r: String)
    ensures
        r@ == frame_text(delimiter@, target_enc@, encs.deep_view()),
{
    let mut res = String::new();
    res.append(delimiter.as_str());
    res.append("\n");
    res.append("find ");
    res.append(target_enc.as_str());
    res.append("\n");
    let ghost head = res@;
    let mut i: usize = 0;
    while i < encs.len()
        invariant
            i <= encs.len(),
            head == delimiter@ + "\n"@ + "find "@ + target_enc@ + "\n"@,
            res@ == head + frame_records(delimiter@, encs.deep_view().take(i as int), 0),
        decreases encs.len() - i,
    {
        res.append(delimiter.as_str());
        res.append("\n");
        let pos = u64_to_decimal(i as u64);
        res.append(pos.as_str());
        res.append(",");
        res.append(encs[i].as_str());
        res.append("\n");
        proof {
            let ghost evs = encs.deep_view();
            assert(evs.take(i + 1) =~= evs.take(i as int).push(evs[i as int]));
            lemma_frame_records_push(delimiter@, evs.take(i as int), evs[i as int], 0);
            assert(res@ =~= head + frame_records(delimiter@, evs.take(i + 1), 0));
        }
        i = i + 1;
    }
    proof {
        assert(encs.deep_view().take(encs.len() as int) =~= encs.deep_view());
        assert(res@ =~= frame_text(delimiter@, target_enc@, encs.deep_view()));
    }
    res
}

} // verus!
