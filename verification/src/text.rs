//! Text: the string operations that the rules lean on, and what they compute.

use vstd::prelude::*;

verus! {

/// Whether Unicode gives a character the `White_Space` property.
pub open spec fn is_white_space(c: char) -> bool {
    ||| '\u{9}' <= c <= '\u{d}'
    ||| c == '\u{20}'
    ||| c == '\u{85}'
    ||| c == '\u{a0}'
    ||| c == '\u{1680}'
    ||| '\u{2000}' <= c <= '\u{200a}'
    ||| c == '\u{2028}'
    ||| c == '\u{2029}'
    ||| c == '\u{202f}'
    ||| c == '\u{205f}'
    ||| c == '\u{3000}'
}

/// A text without the white space that it starts with.
pub open spec fn trimmed_start(s: Seq<char>) -> Seq<char>
    decreases s.len(),
{
    if s.len() > 0 && is_white_space(s.first()) {
        trimmed_start(s.drop_first())
    } else {
        s
    }
}

/// A text without the white space that it ends with.
pub open spec fn trimmed_end(s: Seq<char>) -> Seq<char>
    decreases s.len(),
{
    if s.len() > 0 && is_white_space(s.last()) {
        trimmed_end(s.drop_last())
    } else {
        s
    }
}

/// A text without white space on either side.
pub open spec fn trimmed(s: Seq<char>) -> Seq<char> {
    trimmed_end(trimmed_start(s))
}

/// What stands behind the last `c` of a text; the whole text where it holds no `c`.
pub open spec fn after_last(s: Seq<char>, c: char) -> Seq<char>
    decreases s.len(),
{
    if s.len() == 0 || s.last() == c {
        Seq::empty()
    } else {
        after_last(s.drop_last(), c).push(s.last())
    }
}

/// A character with `A` to `Z` turned into `a` to `z`.
pub open spec fn ascii_lower(c: char) -> char {
    if 'A' <= c <= 'Z' {
        ((c as int) + 32) as char
    } else {
        c
    }
}

/// A text with `A` to `Z` turned into `a` to `z`.
pub open spec fn ascii_lowered(s: Seq<char>) -> Seq<char> {
    s.map_values(|c: char| ascii_lower(c))
}

/// `str::eq`: two texts are equal if and only if they have the same characters.
pub assume_specification[ <str as PartialEq>::eq ](left: &str, right: &str) -> (same: bool)
    ensures
        same == (left@ == right@),
;

/// `str::trim`: the text without leading and trailing white space, where white space is
/// what has the Unicode property `White_Space`.
pub assume_specification[ str::trim ](text: &str) -> (rest: &str)
    ensures
        rest@ == trimmed(text@),
;

/// `str::eq_ignore_ascii_case`: whether two texts agree once `A` to `Z` are turned into
/// `a` to `z` in both.
pub assume_specification[ str::eq_ignore_ascii_case ](left: &str, right: &str) -> (same: bool)
    ensures
        same == (ascii_lowered(left@) == ascii_lowered(right@)),
;

/// `str::rsplit_once` with a character: the text before and the text behind the last
/// occurrence of the character, or nothing where it does not occur.
#[verifier::external_body]
fn rsplit_once(text: &str, delimiter: char) -> (parts: Option<(&str, &str)>)
    ensures
        match parts {
            Some((before, after)) => text@ == before@.push(delimiter) + after@
                && !after@.contains(delimiter),
            None => !text@.contains(delimiter),
        },
{
    text.rsplit_once(delimiter)
}

/// What stands behind a character that does not occur again is what stands behind its last
/// occurrence.
pub proof fn lemma_after_last(before: Seq<char>, c: char, after: Seq<char>)
    requires
        !after.contains(c),
    ensures
        after_last(before.push(c) + after, c) == after,
    decreases after.len(),
{
    let whole = before.push(c) + after;
    if after.len() == 0 {
        assert(whole.last() == c);
    } else {
        assert(whole.last() == after.last());
        assert(after.contains(after.last()));
        assert(whole.drop_last() =~= before.push(c) + after.drop_last());
        assert forall|i: int| 0 <= i < after.drop_last().len() implies after.drop_last()[i] != c by {
            assert(after.contains(after[i]));
        }
        lemma_after_last(before, c, after.drop_last());
        assert(after.drop_last().push(after.last()) =~= after);
    }
}

/// Trimming the start of a text stops at the first character that is no white space.
pub proof fn lemma_trimmed_start(head: Seq<char>, tail: Seq<char>)
    requires
        tail.len() > 0,
        !is_white_space(tail.first()),
    ensures
        trimmed_start(head + tail) == trimmed_start(head) + tail,
    decreases head.len(),
{
    if head.len() == 0 {
        assert(head + tail =~= tail);
        assert(trimmed_start(head) + tail =~= tail);
    } else if is_white_space(head.first()) {
        assert((head + tail).drop_first() =~= head.drop_first() + tail);
        lemma_trimmed_start(head.drop_first(), tail);
    }
}

/// The text behind the last `delimiter`, if there is one.
pub fn after_last_occurrence(text: &str, delimiter: char) -> (rest: Option<&str>)
    ensures
        match rest {
            Some(after) => text@.contains(delimiter) && after@ == after_last(text@, delimiter),
            None => !text@.contains(delimiter),
        },
{
    match rsplit_once(text, delimiter) {
        Some((before, after)) => {
            proof {
                lemma_after_last(before@, delimiter, after@);
                assert(text@[before@.len() as int] == delimiter);
            }
            Some(after)
        },
        None => None,
    }
}

/// Whether two texts are the same.
pub fn same_text(left: &str, right: &str) -> (same: bool)
    ensures
        same == (left@ == right@),
{
    *left == *right
}

/// Trimming takes away the white space on both sides of a text, and nothing else.
pub proof fn law_trimmed(before: Seq<char>, core: Seq<char>, after: Seq<char>)
    requires
        forall|i: int| 0 <= i < before.len() ==> is_white_space(#[trigger] before[i]),
        forall|i: int| 0 <= i < after.len() ==> is_white_space(#[trigger] after[i]),
        core.len() > 0 ==> !is_white_space(core.first()) && !is_white_space(core.last()),
    ensures
        trimmed(before + core + after) == core,
{
    lemma_white_start(before, core + after);
    assert(before + core + after =~= before + (core + after));
    if core.len() > 0 {
        assert((core + after).first() == core.first());
        lemma_white_end(core, after);
    } else {
        assert(core + after =~= after + core);
        lemma_white_start(after, core);
        assert(trimmed_start(core) == core);
    }
}

/// White space at the start of a text does not count once the start is trimmed.
proof fn lemma_white_start(white: Seq<char>, rest: Seq<char>)
    requires
        forall|i: int| 0 <= i < white.len() ==> is_white_space(#[trigger] white[i]),
    ensures
        trimmed_start(white + rest) == trimmed_start(rest),
    decreases white.len(),
{
    if white.len() == 0 {
        assert(white + rest =~= rest);
    } else {
        assert((white + rest).first() == white[0]);
        assert((white + rest).drop_first() =~= white.drop_first() + rest);
        lemma_white_start(white.drop_first(), rest);
    }
}

/// White space at the end of a text does not count once the end is trimmed.
proof fn lemma_white_end(rest: Seq<char>, white: Seq<char>)
    requires
        forall|i: int| 0 <= i < white.len() ==> is_white_space(#[trigger] white[i]),
    ensures
        trimmed_end(rest + white) == trimmed_end(rest),
    decreases white.len(),
{
    if white.len() == 0 {
        assert(rest + white =~= rest);
    } else {
        assert((rest + white).last() == white[white.len() - 1]);
        assert((rest + white).drop_last() =~= rest + white.drop_last());
        lemma_white_end(rest, white.drop_last());
    }
}

/// Two texts agree but for the ASCII case if and only if they are equally long and each two
/// characters at one position are the same, or one is the capital of the other.
pub proof fn law_same_but_for_case(first: Seq<char>, second: Seq<char>)
    ensures
        ascii_lowered(first) == ascii_lowered(second) <==> first.len() == second.len() && forall|
            i: int,
        |
            0 <= i < first.len() ==> #[trigger] first[i] == second[i] || ('A' <= first[i] <= 'Z'
                && second[i] as int == first[i] as int + 32) || ('A' <= second[i] <= 'Z'
                && first[i] as int == second[i] as int + 32),
{
    let a = ascii_lowered(first);
    let b = ascii_lowered(second);
    if a == b {
        assert forall|i: int| 0 <= i < first.len() implies #[trigger] first[i] == second[i] || ('A'
            <= first[i] <= 'Z' && second[i] as int == first[i] as int + 32) || ('A' <= second[i]
            <= 'Z' && first[i] as int == second[i] as int + 32) by {
            assert(a[i] == ascii_lower(first[i]));
            assert(b[i] == ascii_lower(second[i]));
        }
    }
    if first.len() == second.len() && forall|i: int|
        0 <= i < first.len() ==> #[trigger] first[i] == second[i] || ('A' <= first[i] <= 'Z'
            && second[i] as int == first[i] as int + 32) || ('A' <= second[i] <= 'Z'
            && first[i] as int == second[i] as int + 32) {
        assert forall|i: int| 0 <= i < a.len() implies a[i] == b[i] by {
            assert(first[i] == first[i]);
        }
        assert(a =~= b);
    }
}

} // verus!
