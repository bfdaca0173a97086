//! Laws of the text rules.
use crate::scan;
use crate::text;
use vstd::prelude::*;

verus! {

/// Folding the case of a text changes its ASCII capitals alone, each by the
/// distance between a capital and its small letter.
pub proof fn law_folding_lowers_ascii_capitals_alone(s: Seq<char>)
    ensures
        text::ascii_lower(s).len() == s.len(),
        forall|i: int|
            0 <= i < s.len() ==> if 65 <= #[trigger] s[i] as u32 <= 90 {
                text::ascii_lower(s)[i] as u32 == s[i] as u32 + 32
            } else {
                text::ascii_lower(s)[i] == s[i]
            },
{
    assert forall|i: int| 0 <= i < s.len() implies if 65 <= #[trigger] s[i] as u32 <= 90 {
        text::ascii_lower(s)[i] as u32 == s[i] as u32 + 32
    } else {
        text::ascii_lower(s)[i] == s[i]
    } by {
        let c = s[i];
        assert(text::ascii_lower(s)[i] == text::lower_char(c));
    }
}

/// Two texts that differ at most in case are of one length, and where they
/// differ stand a capital and its small letter.
pub proof fn law_case_is_all_that_is_ignored(a: Seq<char>, b: Seq<char>)
    ensures
        text::same_ignoring_case(a, b) <==> a.len() == b.len() && forall|i: int|
            0 <= i < a.len() ==> {
                ||| #[trigger] a[i] == b[i]
                ||| 65 <= a[i] as u32 <= 90 && b[i] as u32 == a[i] as u32 + 32
                ||| 65 <= b[i] as u32 <= 90 && a[i] as u32 == b[i] as u32 + 32
            },
{
    law_folding_lowers_ascii_capitals_alone(a);
    law_folding_lowers_ascii_capitals_alone(b);
    let x = text::ascii_lower(a);
    let y = text::ascii_lower(b);
    if x == y {
        assert forall|i: int| 0 <= i < a.len() implies {
            ||| #[trigger] a[i] == b[i]
            ||| 65 <= a[i] as u32 <= 90 && b[i] as u32 == a[i] as u32 + 32
            ||| 65 <= b[i] as u32 <= 90 && a[i] as u32 == b[i] as u32 + 32
        } by {
            assert(x[i] == y[i]);
            lemma_char_by_number(a[i], b[i]);
        }
    }
    if a.len() == b.len() && forall|i: int|
        0 <= i < a.len() ==> {
            ||| #[trigger] a[i] == b[i]
            ||| 65 <= a[i] as u32 <= 90 && b[i] as u32 == a[i] as u32 + 32
            ||| 65 <= b[i] as u32 <= 90 && a[i] as u32 == b[i] as u32 + 32
        } {
        assert forall|i: int| 0 <= i < x.len() implies x[i] == y[i] by {
            assert(a[i] == b[i] || a[i] != b[i]);
            lemma_char_by_number(x[i], y[i]);
        }
        assert(x =~= y);
    }
}

/// A character is its number.
proof fn lemma_char_by_number(a: char, b: char)
    ensures
        a as u32 == b as u32 ==> a == b,
{
}

/// Trimming takes the white space around a text, and nothing else.
pub proof fn law_trimming_takes_what_surrounds(
    before: Seq<char>,
    middle: Seq<char>,
    after: Seq<char>,
)
    requires
        forall|i: int| 0 <= i < before.len() ==> text::is_white_space(#[trigger] before[i]),
        forall|i: int| 0 <= i < after.len() ==> text::is_white_space(#[trigger] after[i]),
        middle.len() > 0 ==> !text::is_white_space(middle[0]) && !text::is_white_space(
            middle.last(),
        ),
    ensures
        text::trimmed(before + middle + after) == middle,
{
    let s = before + middle + after;
    let bounds = text::lemma_trimmed(s);
    let t = text::trimmed(s);
    if middle.len() == 0 {
        if t.len() > 0 {
            assert(t[0] == s[bounds.0]);
            if bounds.0 < before.len() {
                assert(s[bounds.0] == before[bounds.0]);
            } else {
                assert(s[bounds.0] == after[bounds.0 - before.len()]);
            }
        }
        assert(t =~= middle);
    } else {
        let first = before.len() as int;
        let last = before.len() + middle.len() - 1;
        assert(s[first] == middle[0]);
        assert(s[last] == middle.last());
        assert(bounds.0 <= first && last < bounds.1);
        assert(t.len() > 0);
        assert(t[0] == s[bounds.0]);
        assert(t.last() == s[bounds.1 - 1]);
        if bounds.0 < first {
            assert(s[bounds.0] == before[bounds.0]);
        }
        if bounds.1 - 1 > last {
            assert(s[bounds.1 - 1] == after[bounds.1 - 1 - last - 1]);
        }
        assert(t =~= middle);
    }
}

/// White space is a tab, a line feed, a carriage return and a space among the
/// ASCII characters, with the vertical tab and the form feed between them, and
/// no printing character; control characters are those below the space, the
/// delete character and those up to the no-break space.
pub proof fn law_character_classes(c: char)
    ensures
        (c as u32) < 128 ==> text::is_white_space(c) == (9 <= c as u32 <= 13 || c as u32 == 32),
        text::is_control_char(c) == ((c as u32) < 32 || 127 <= c as u32 <= 159),
        text::is_ascii_alphanumeric(c) == (48 <= c as u32 <= 57 || 65 <= c as u32 <= 90 || 97
            <= c as u32 <= 122),
{
}

/// The number that decimal digits stand for.
pub open spec fn number_of(digits: Seq<char>) -> int
    decreases digits.len(),
{
    if digits.len() == 0 {
        0
    } else {
        10 * number_of(digits.drop_last()) + (digits.last() as u32 - 48)
    }
}

/// The decimal form of a number is made of digits, stands for it, and has no
/// zero in front unless it is one digit long.
pub proof fn law_decimal_form_stands_for_the_number(n: nat)
    ensures
        number_of(text::decimal_text(n)) == n,
        forall|i: int|
            0 <= i < text::decimal_text(n).len() ==> 48 <= #[trigger] text::decimal_text(
                n,
            )[i] as u32 <= 57,
        text::decimal_text(n).len() > 0,
        text::decimal_text(n).len() > 1 ==> text::decimal_text(n)[0] as u32 != 48,
    decreases n,
{
    reveal_with_fuel(number_of, 2);
    let d = text::decimal_text(n);
    if n < 10 {
        assert(d.drop_last() =~= seq![]);
        assert(d.last() as u32 == 48 + n);
    } else {
        law_decimal_form_stands_for_the_number(n / 10);
        let head = text::decimal_text(n / 10);
        assert(d.drop_last() =~= head);
        assert(d.last() as u32 == 48 + n % 10);
        assert forall|i: int| 0 <= i < d.len() implies 48 <= #[trigger] d[i] as u32 <= 57 by {
            if i < head.len() {
                assert(d[i] == head[i]);
            }
        }
        if head.len() == 1 {
            reveal_with_fuel(text::decimal_text, 2);
            assert(n / 10 > 0);
            if n / 10 >= 10 {
                law_decimal_form_stands_for_the_number(n / 10 / 10);
            }
        }
        assert(d[0] == head[0]);
    }
}

/// ASCII white space is tab, line feed, form feed, carriage return and space.
/// Trimming bytes takes it from both ends, and nothing else.
pub proof fn law_trimming_bytes_takes_what_surrounds(
    before: Seq<u8>,
    middle: Seq<u8>,
    after: Seq<u8>,
)
    requires
        forall|i: int| 0 <= i < before.len() ==> is_one_of_five(#[trigger] before[i]),
        forall|i: int| 0 <= i < after.len() ==> is_one_of_five(#[trigger] after[i]),
        middle.len() > 0 ==> !is_one_of_five(middle[0]) && !is_one_of_five(middle.last()),
    ensures
        scan::trimmed_ascii(before + middle + after) == middle,
    decreases before.len() + after.len(),
{
    let s = before + middle + after;
    if before.len() > 0 {
        let rest = before.drop_first();
        assert forall|i: int| 0 <= i < rest.len() implies is_one_of_five(#[trigger] rest[i]) by {
            assert(rest[i] == before[i + 1]);
        }
        law_trimming_bytes_takes_what_surrounds(rest, middle, after);
        assert(s[0] == before[0]);
        assert(s.drop_first() =~= rest + middle + after);
    } else if middle.len() == 0 {
        assert(s =~= after);
        lemma_trim_blank(after);
        assert(scan::trim_ascii_end(Seq::<u8>::empty()) =~= Seq::<u8>::empty());
        assert(middle =~= Seq::<u8>::empty());
    } else {
        assert(s[0] == middle[0]);
        assert(s =~= middle + after);
        lemma_trim_end_blank(middle, after);
    }
}

/// Tab, line feed, form feed, carriage return or space.
pub open spec fn is_one_of_five(byte: u8) -> bool {
    byte == 9 || byte == 10 || byte == 12 || byte == 13 || byte == 32
}

proof fn lemma_trim_blank(s: Seq<u8>)
    requires
        forall|i: int| 0 <= i < s.len() ==> is_one_of_five(#[trigger] s[i]),
    ensures
        scan::trim_ascii_start(s) == Seq::<u8>::empty(),
    decreases s.len(),
{
    if s.len() > 0 {
        assert(is_one_of_five(s[0]));
        let rest = s.drop_first();
        assert forall|i: int| 0 <= i < rest.len() implies is_one_of_five(#[trigger] rest[i]) by {
            assert(rest[i] == s[i + 1]);
        }
        lemma_trim_blank(rest);
    } else {
        assert(s =~= Seq::<u8>::empty());
    }
}

proof fn lemma_trim_end_blank(middle: Seq<u8>, after: Seq<u8>)
    requires
        middle.len() > 0,
        !is_one_of_five(middle.last()),
        forall|i: int| 0 <= i < after.len() ==> is_one_of_five(#[trigger] after[i]),
    ensures
        scan::trim_ascii_end(middle + after) == middle,
    decreases after.len(),
{
    let s = middle + after;
    if after.len() == 0 {
        assert(s =~= middle);
    } else {
        assert(is_one_of_five(after[after.len() - 1]));
        let rest = after.drop_last();
        assert forall|i: int| 0 <= i < rest.len() implies is_one_of_five(#[trigger] rest[i]) by {
            assert(rest[i] == after[i]);
        }
        lemma_trim_end_blank(middle, rest);
        assert(s.drop_last() =~= middle + rest);
    }
}

} // verus!
