//! What holds of trimming, joining, numbers and the order of texts, said of the characters
//! themselves.
use vstd::prelude::*;

use crate::order::text_before;
use crate::text::{
    contains_text, decimal, joined, padded, signed_decimal, stands_at, trim_back, trim_front,
    trimmed, CharClass,
};

verus! {

/// Whether a text is made of spaces, tabulators, line feeds and carriage returns.
pub open spec fn is_blank_text(s: Seq<char>) -> bool {
    forall|i: int|
        0 <= i < s.len() ==> #[trigger] s[i] == ' ' || s[i] == '\t' || s[i] == '\n' || s[i] == '\r'
}

proof fn lemma_front(lead: Seq<char>, rest: Seq<char>)
    requires
        is_blank_text(lead),
        rest.len() > 0 ==> '!' <= rest[0] <= '~',
    ensures
        trim_front(lead + rest, CharClass::Space) == rest,
    decreases lead.len(),
{
    let s = lead + rest;
    if lead.len() > 0 {
        assert(s[0] == lead[0]);
        let fewer = lead.drop_first();
        assert forall|i: int| 0 <= i < fewer.len() implies #[trigger] fewer[i] == ' ' || fewer[i]
            == '\t' || fewer[i] == '\n' || fewer[i] == '\r' by {
            assert(fewer[i] == lead[i + 1]);
        }
        lemma_front(fewer, rest);
        assert(s.drop_first() =~= fewer + rest);
    } else {
        assert(s =~= rest);
    }
}

proof fn lemma_back(rest: Seq<char>, trail: Seq<char>)
    requires
        is_blank_text(trail),
        rest.len() > 0 ==> '!' <= rest.last() <= '~',
    ensures
        trim_back(rest + trail, CharClass::Space) == rest,
    decreases trail.len(),
{
    let s = rest + trail;
    if trail.len() > 0 {
        assert(s.last() == trail[trail.len() - 1]);
        let fewer = trail.drop_last();
        assert forall|i: int| 0 <= i < fewer.len() implies #[trigger] fewer[i] == ' ' || fewer[i]
            == '\t' || fewer[i] == '\n' || fewer[i] == '\r' by {
            assert(fewer[i] == trail[i]);
        }
        lemma_back(rest, fewer);
        assert(s.drop_last() =~= rest + fewer);
    } else {
        assert(s =~= rest);
    }
}

/// White space around a text is trimmed, and nothing else.
pub proof fn outer_white_space_is_trimmed(lead: Seq<char>, core: Seq<char>, trail: Seq<char>)
    requires
        is_blank_text(lead),
        is_blank_text(trail),
        core.len() > 0,
        '!' <= core[0] <= '~',
        '!' <= core.last() <= '~',
    ensures
        trimmed(lead + core + trail, CharClass::Space) == core,
{
    assert(lead + core + trail =~= lead + (core + trail));
    assert((core + trail)[0] == core[0]);
    lemma_front(lead, core + trail);
    lemma_back(core, trail);
}

/// Nothing is left of a blank text.
pub proof fn blank_texts_are_trimmed_away(blank: Seq<char>)
    requires
        is_blank_text(blank),
    ensures
        trimmed(blank, CharClass::Space).len() == 0,
{
    let none = Seq::<char>::empty();
    assert(blank + none =~= blank);
    lemma_front(blank, none);
    assert(trim_back(none, CharClass::Space) == none);
}

/// Texts are joined with what stands between each two of them, and with nothing else.
pub proof fn texts_are_joined_in_order(parts: Seq<Seq<char>>, sep: Seq<char>, next: Seq<char>)
    ensures
        joined(Seq::empty(), sep) == Seq::<char>::empty(),
        parts.len() == 0 ==> joined(parts.push(next), sep) == next,
        parts.len() > 0 ==> joined(parts.push(next), sep) == joined(parts, sep) + sep + next,
{
    assert(parts.push(next).drop_last() =~= parts);
    assert(parts.push(next).last() == next);
}

/// A number is written with its digits: that of a number below ten is one character, and ten
/// times a number and a digit is written as the number and the digit.
pub proof fn numbers_are_written_with_digits(n: nat, d: nat)
    requires
        d < 10,
    ensures
        decimal(d) == seq![(48 + d) as char],
        n > 0 ==> decimal(10 * n + d) == decimal(n).push((48 + d) as char),
        n > 0 ==> signed_decimal(-(n as int)) == seq!['-'] + decimal(n),
        signed_decimal(n as int) == decimal(n),
{
    if n > 0 {
        assert((10 * n + d) / 10 == n);
        assert((10 * n + d) % 10 == d);
    }
}

/// A text is filled up with spaces to a width, and stays where it is wide enough.
pub proof fn texts_are_filled_up(s: Seq<char>, width: nat)
    ensures
        s.len() >= width ==> padded(s, width) == s,
        s.len() < width ==> padded(s, width).len() == width,
        s.len() < width ==> padded(s, width).take(s.len() as int) == s,
        forall|i: int| s.len() <= i < padded(s, width).len() ==> padded(s, width)[i] == ' ',
{
    if s.len() < width {
        assert(padded(s, width).take(s.len() as int) =~= s);
    }
}

/// Texts are ordered by the first character in which they differ; the beginning of a text
/// comes before it.
pub proof fn the_first_difference_orders(
    same: Seq<char>,
    a: char,
    b: char,
    x: Seq<char>,
    y: Seq<char>,
)
    requires
        a != b,
    ensures
        text_before(same.push(a) + x, same.push(b) + y) <==> a < b,
        text_before(same, same.push(a) + x),
        !text_before(same.push(a) + x, same),
        !text_before(same, same),
    decreases same.len(),
{
    let left = same.push(a) + x;
    let right = same.push(b) + y;
    if same.len() > 0 {
        let rest = same.drop_first();
        the_first_difference_orders(rest, a, b, x, y);
        assert(left[0] == same[0]);
        assert(right[0] == same[0]);
        assert(left.drop_first() =~= rest.push(a) + x);
        assert(right.drop_first() =~= rest.push(b) + y);
    } else {
        assert(left[0] == a);
        assert(right[0] == b);
    }
}

/// A text holds whatever stands between two parts of it, and nothing longer than itself.
pub proof fn a_text_holds_its_parts(before: Seq<char>, part: Seq<char>, after: Seq<char>)
    ensures
        contains_text(before + part + after, part),
        part.len() > 0 ==> !contains_text(before, before + part),
{
    let s = before + part + after;
    assert(s.subrange(before.len() as int, before.len() as int + part.len()) =~= part);
    assert(stands_at(s, part, before.len() as int));
}

} // verus!
